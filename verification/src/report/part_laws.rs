//! What holds of the reports of parts: of some of the events, of some of the days, of one model.

use crate::calendar;
use crate::calendar::CivilDate;
use crate::report;
use crate::report::laws;
use crate::report::merge;
use crate::report::split_laws;
use crate::report::sums;
use crate::report::{GroupBy, Grouping};
use crate::text;
use crate::types::{EventModel, ReportRow, RowModel, TotalsModel};
use vstd::prelude::*;

verus! {

/// A table with rows added, row after row.
pub open spec fn merged_onto(table: Map<Seq<char>, RowModel>, rows: Seq<RowModel>) -> Map<
    Seq<char>,
    RowModel,
>
    decreases rows.len(),
{
    if rows.len() == 0 {
        table
    } else {
        merge::merged_with(merged_onto(table, rows.drop_last()), rows.last())
    }
}

proof fn lemma_merged_in_parts(first: Seq<RowModel>, second: Seq<RowModel>)
    ensures
        merge::merged(first + second) == merged_onto(merge::merged(first), second),
    decreases second.len(),
{
    if second.len() == 0 {
        assert(first + second =~= first);
    } else {
        assert((first + second).drop_last() =~= first + second.drop_last());
        lemma_merged_in_parts(first, second.drop_last());
    }
}

/// Whether the rows have the given keys.
spec fn keyed_by(rows: Seq<RowModel>, keys: Seq<Seq<char>>) -> bool {
    rows.len() == keys.len() && forall|i: int|
        0 <= i < rows.len() ==> (#[trigger] rows[i]).key == keys[i]
}

/// Rows of different periods are each added to the row of its period.
proof fn lemma_merged_rows(
    table: Map<Seq<char>, RowModel>,
    rows: Seq<RowModel>,
    keys: Seq<Seq<char>>,
)
    requires
        keyed_by(rows, keys),
        keys.no_duplicates(),
    ensures
        forall|key: Seq<char>| #[trigger]
            merged_onto(table, rows).dom().contains(key) <==> table.dom().contains(key)
                || keys.contains(key),
        forall|i: int|
            0 <= i < rows.len() ==> merged_onto(table, rows)[#[trigger] keys[i]] == merge::row_sum(
                merge::row_in(table, keys[i]),
                rows[i],
            ),
        forall|key: Seq<char>|
            !keys.contains(key) && table.dom().contains(key) ==> #[trigger] merged_onto(
                table,
                rows,
            )[key] == table[key],
    decreases rows.len(),
{
    if rows.len() > 0 {
        let (fewer, fewer_keys) = (rows.drop_last(), keys.drop_last());
        let last = rows.len() - 1;
        assert forall|i: int| 0 <= i < fewer.len() implies (#[trigger] fewer[i]).key
            == fewer_keys[i] by {
            assert(fewer[i] == rows[i]);
        }
        lemma_merged_rows(table, fewer, fewer_keys);
        assert(rows[last].key == keys[last]);
        let before = merged_onto(table, fewer);
        assert forall|key: Seq<char>| #[trigger]
            keys.contains(key) <==> fewer_keys.contains(key) || key == keys[last] by {
            if keys.contains(key) {
                let i = choose|i: int| 0 <= i < keys.len() && keys[i] == key;
                if i < last {
                    assert(fewer_keys[i] == key);
                }
            }
            if fewer_keys.contains(key) {
                let i = choose|i: int| 0 <= i < fewer_keys.len() && fewer_keys[i] == key;
                assert(keys[i] == key);
            }
        }
        assert(!fewer_keys.contains(keys[last])) by {
            if fewer_keys.contains(keys[last]) {
                let i = choose|i: int| 0 <= i < fewer_keys.len() && fewer_keys[i] == keys[last];
                assert(keys[i] == keys[last]);
            }
        }
        assert(merge::row_in(before, keys[last]) == merge::row_in(table, keys[last])) by {
            assert(before.dom().contains(keys[last]) <==> table.dom().contains(keys[last]));
            if table.dom().contains(keys[last]) {
                assert(merged_onto(table, fewer)[keys[last]] == table[keys[last]]);
            }
        }
        let after = merged_onto(table, rows);
        assert forall|i: int| 0 <= i < rows.len() implies after[#[trigger] keys[i]]
            == merge::row_sum(merge::row_in(table, keys[i]), rows[i]) by {
            if i < last {
                assert(fewer_keys[i] == keys[i]);
                assert(fewer[i] == rows[i]);
                assert(keys[i] != keys[last]);
            }
        }
        assert forall|key: Seq<char>| !keys.contains(key) && table.dom().contains(
            key,
        ) implies #[trigger] after[key] == table[key] by {
            assert(!fewer_keys.contains(key));
            assert(merged_onto(table, fewer)[key] == table[key]);
        }
    }
}

proof fn lemma_models_of_both(a: Seq<EventModel>, b: Seq<EventModel>, keep: sums::EventTest)
    ensures
        sums::models_where(a + b, keep) == merge::models_sum(
            sums::models_where(a, keep),
            sums::models_where(b, keep),
        ),
{
    let both = sums::models_where(a + b, keep);
    let sum = merge::models_sum(sums::models_where(a, keep), sums::models_where(b, keep));
    assert forall|model: Seq<char>|
        #![trigger both.dom().contains(model)]
        #![trigger sum.dom().contains(model)]
        both.dom().contains(model) == sum.dom().contains(model) && (both.dom().contains(model)
            ==> both[model] == sum[model]) by {
        let its = sums::of_model(keep, model);
        laws::lemma_usage_of_both(a, b, its);
        if !sums::any_where(a, its) {
            sums::lemma_none_used(a, its);
        }
        if !sums::any_where(b, its) {
            sums::lemma_none_used(b, its);
        }
    }
    assert(both =~= sum);
}

/// The key of a row that is not split by model is the one that it is kept by.
proof fn lemma_unsplit_key(
    events: Seq<EventModel>,
    zone: Seq<char>,
    grouping: Grouping,
    key: Seq<char>,
)
    requires
        !grouping.split_by_model,
        sums::any_where(events, report::of_row(zone, grouping, key)),
    ensures
        report::row_of(events, zone, grouping, key).key == key,
{
    laws::lemma_first_is_meant(events, report::of_row(zone, grouping, key));
}

/// The row of a period in two lists of events is the sum of its rows in each.
proof fn lemma_row_of_both(
    a: Seq<EventModel>,
    b: Seq<EventModel>,
    zone: Seq<char>,
    grouping: Grouping,
    key: Seq<char>,
)
    requires
        !grouping.split_by_model,
        sums::any_where(a + b, report::of_row(zone, grouping, key)),
    ensures
        report::row_of(a + b, zone, grouping, key) == merge::row_sum(
            merge::row_in(report::report_of(a, zone, grouping), key),
            merge::row_in(report::report_of(b, zone, grouping), key),
        ),
{
    let keep = report::of_row(zone, grouping, key);
    laws::lemma_usage_of_both(a, b, keep);
    lemma_models_of_both(a, b, keep);
    lemma_unsplit_key(a + b, zone, grouping, key);
    lemma_row_or_none(a, zone, grouping, key);
    lemma_row_or_none(b, zone, grouping, key);
}

/// The row of a period, empty where there is none, tells of the events of the period.
pub(crate) proof fn lemma_row_or_none(
    events: Seq<EventModel>,
    zone: Seq<char>,
    grouping: Grouping,
    key: Seq<char>,
)
    requires
        !grouping.split_by_model,
    ensures
        merge::row_in(report::report_of(events, zone, grouping), key) == (RowModel {
            key,
            usage: sums::usage_where(events, report::of_row(zone, grouping, key)),
            models: sums::models_where(events, report::of_row(zone, grouping, key)),
        }),
{
    let keep = report::of_row(zone, grouping, key);
    if sums::any_where(events, keep) {
        lemma_unsplit_key(events, zone, grouping, key);
    } else {
        split_laws::lemma_row_of_none(events, keep, key);
    }
}

/// Adding the rows of one report to another gives the report of the events of both.
pub proof fn lemma_report_of_both(
    a: Seq<EventModel>,
    b: Seq<EventModel>,
    rows: Seq<ReportRow>,
    zone: Seq<char>,
    grouping: Grouping,
)
    requires
        !grouping.split_by_model,
        report::lists_table(rows, report::report_of(b, zone, grouping)),
    ensures
        merged_onto(report::report_of(a, zone, grouping), merge::row_list(rows))
            == report::report_of(a + b, zone, grouping),
{
    let (x, y) = (report::report_of(a, zone, grouping), report::report_of(b, zone, grouping));
    let both = report::report_of(a + b, zone, grouping);
    let keys = choose|keys: Seq<Seq<char>>| report::lists(rows, y, keys);
    let list = merge::row_list(rows);
    laws::lemma_distinct(keys);
    assert forall|i: int| 0 <= i < list.len() implies (#[trigger] list[i]).key == keys[i] && list[i]
        == y[keys[i]] by {
        assert(rows[i]@ == y[keys[i]]);
        assert(keys.contains(keys[i]));
        assert(y.dom().contains(keys[i]));
        lemma_unsplit_key(b, zone, grouping, keys[i]);
    }
    lemma_merged_rows(x, list, keys);
    let merged = merged_onto(x, list);
    assert forall|key: Seq<char>|
        #![trigger merged.dom().contains(key)]
        #![trigger both.dom().contains(key)]
        merged.dom().contains(key) == both.dom().contains(key) && (merged.dom().contains(key)
            ==> merged[key] == both[key]) by {
        let keep = report::of_row(zone, grouping, key);
        laws::lemma_usage_of_both(a, b, keep);
        assert(keys.contains(key) <==> y.dom().contains(key));
        if both.dom().contains(key) {
            lemma_row_of_both(a, b, zone, grouping, key);
            lemma_row_or_none(b, zone, grouping, key);
            lemma_row_or_none(a, zone, grouping, key);
            if keys.contains(key) {
                let i = choose|i: int| 0 <= i < keys.len() && keys[i] == key;
                assert(merged[keys[i]] == merge::row_sum(merge::row_in(x, keys[i]), list[i]));
            } else {
                let sum = merge::row_sum(x[key], merge::row_in(y, key));
                assert(sum.models =~= x[key].models);
                assert(both[key] == x[key]);
            }
        }
    }
    assert(merged =~= both);
}

/// The events of all parts, part after part.
pub open spec fn events_of_parts(parts: Seq<Seq<EventModel>>) -> Seq<EventModel>
    decreases parts.len(),
{
    if parts.len() == 0 {
        Seq::empty()
    } else {
        events_of_parts(parts.drop_last()) + parts.last()
    }
}

/// The reports of parts put together are the report of all their events.
pub proof fn lemma_merged_reports(
    parts: Seq<Vec<ReportRow>>,
    events: Seq<Seq<EventModel>>,
    zone: Seq<char>,
    grouping: Grouping,
)
    requires
        !grouping.split_by_model,
        parts.len() == events.len(),
        forall|i: int|
            0 <= i < parts.len() ==> report::lists_table(
                (#[trigger] parts[i])@,
                report::report_of(events[i], zone, grouping),
            ),
    ensures
        merge::merged(merge::all_rows(parts)) == report::report_of(
            events_of_parts(events),
            zone,
            grouping,
        ),
    decreases parts.len(),
{
    if parts.len() == 0 {
        report::lemma_empty_report(zone, grouping);
    } else {
        let (fewer, fewer_events) = (parts.drop_last(), events.drop_last());
        let last = parts.len() - 1;
        assert forall|i: int| 0 <= i < fewer.len() implies report::lists_table(
            (#[trigger] fewer[i])@,
            report::report_of(fewer_events[i], zone, grouping),
        ) by {
            assert(fewer[i] == parts[i]);
        }
        lemma_merged_reports(fewer, fewer_events, zone, grouping);
        assert(report::lists_table(
            parts[last]@,
            report::report_of(events[last], zone, grouping),
        ));
        lemma_merged_in_parts(merge::all_rows(fewer), merge::row_list(parts.last()@));
        lemma_report_of_both(
            events_of_parts(fewer_events),
            events.last(),
            parts.last()@,
            zone,
            grouping,
        );
    }
}

proof fn lemma_merged_grows(rows: Seq<RowModel>, n: int, key: Seq<char>)
    requires
        0 <= n <= rows.len(),
    ensures
        merge::row_in(merge::merged(rows.take(n)), key).usage.within(
            merge::row_in(merge::merged(rows), key).usage,
        ),
        forall|model: Seq<char>| #[trigger]
            merge::totals_in(
                merge::row_in(merge::merged(rows.take(n)), key).models,
                model,
            ).usage.within(
                merge::totals_in(merge::row_in(merge::merged(rows), key).models, model).usage,
            ),
    decreases rows.len() - n,
{
    if n < rows.len() {
        lemma_merged_grows(rows, n + 1, key);
        assert(rows.take(n + 1).drop_last() =~= rows.take(n));
        let before = merge::row_in(merge::merged(rows.take(n)), key);
        let after = merge::row_in(merge::merged(rows.take(n + 1)), key);
        assert forall|model: Seq<char>| #[trigger]
            merge::totals_in(before.models, model).usage.within(
                merge::totals_in(after.models, model).usage,
            ) by {}
        assert forall|model: Seq<char>| #[trigger]
            merge::totals_in(before.models, model).usage.within(
                merge::totals_in(merge::row_in(merge::merged(rows), key).models, model).usage,
            ) by {
            assert(merge::totals_in(before.models, model).usage.within(
                merge::totals_in(after.models, model).usage,
            ));
            assert(merge::totals_in(after.models, model).usage.within(
                merge::totals_in(merge::row_in(merge::merged(rows), key).models, model).usage,
            ));
        }
    } else {
        assert(rows.take(n) =~= rows);
    }
}

/// Where the report of all events is within 64 bits, the reports of its parts can be put together.
pub proof fn lemma_parts_can_be_merged(
    parts: Seq<Vec<ReportRow>>,
    events: Seq<Seq<EventModel>>,
    zone: Seq<char>,
    grouping: Grouping,
)
    requires
        !grouping.split_by_model,
        parts.len() == events.len(),
        forall|i: int|
            0 <= i < parts.len() ==> report::lists_table(
                (#[trigger] parts[i])@,
                report::report_of(events[i], zone, grouping),
            ),
        report::report_fits(events_of_parts(events), zone, grouping),
    ensures
        merge::merge_fits(merge::all_rows(parts)),
{
    lemma_merged_reports(parts, events, zone, grouping);
    let rows = merge::all_rows(parts);
    let all = events_of_parts(events);
    let table = report::report_of(all, zone, grouping);
    assert forall|n: int| 0 <= n < rows.len() implies merge::sum_fits(
        merge::row_in(merge::merged(rows.take(n)), (#[trigger] rows[n]).key),
        rows[n],
    ) by {
        let key = rows[n].key;
        let keep = report::of_row(zone, grouping, key);
        let before = merge::row_in(merge::merged(rows.take(n)), key);
        lemma_merged_grows(rows, n + 1, key);
        assert(rows.take(n + 1).drop_last() =~= rows.take(n));
        lemma_row_or_none(all, zone, grouping, key);
        assert(sums::usage_where(all, keep).fits());
        let after = merge::row_in(merge::merged(rows.take(n + 1)), key);
        assert(after == merge::row_sum(before, rows[n]));
        assert forall|model: Seq<char>| #[trigger]
            rows[n].models.dom().contains(model) implies merge::totals_in(
            before.models,
            model,
        ).usage.plus(rows[n].models[model].usage).fits() by {
            let its = sums::of_model(keep, model);
            sums::lemma_usage_within(all, its, keep);
            assert(merge::totals_in(after.models, model).usage == merge::totals_in(
                before.models,
                model,
            ).usage.plus(rows[n].models[model].usage));
            assert(merge::totals_in(after.models, model).usage.within(
                merge::totals_in(merge::row_in(merge::merged(rows), key).models, model).usage,
            ));
            assert(merge::totals_in(merge::row_in(table, key).models, model).usage.fits());
        }
    }
}

/// The way of grouping without a window.
pub open spec fn unfiltered(grouping: Grouping) -> Grouping {
    Grouping { since: None, until: None, ..grouping }
}

/// A window chooses among the days of a report and changes none of them: the row of a day within it
/// is the row that the day has in the report of all days.
pub proof fn lemma_window_chooses_days(
    events: Seq<EventModel>,
    zone: Seq<char>,
    grouping: Grouping,
    stored: Seq<char>,
)
    requires
        report::clock_shows(events, zone),
        grouping.group_by == GroupBy::Day,
        report::report_of(events, zone, grouping).dom().contains(stored),
    ensures
        report::report_of(events, zone, unfiltered(grouping)).dom().contains(stored),
        report::report_of(events, zone, grouping)[stored] == report::report_of(
            events,
            zone,
            unfiltered(grouping),
        )[stored],
{
    let all = unfiltered(grouping);
    let some = report::of_row(zone, grouping, stored);
    let full = report::of_row(zone, all, stored);
    let at = choose|i: int| 0 <= i < events.len() && some(#[trigger] events[i]);
    let there = report::local_date(events[at].timestamp_unix_ms, zone)->0;
    assert(report::clock_shows_at(events[at].timestamp_unix_ms, zone));
    assert forall|i: int| 0 <= i < events.len() implies some(#[trigger] events[i]) == full(
        events[i],
    ) by {
        if full(events[i]) {
            assert(report::clock_shows_at(events[i].timestamp_unix_ms, zone));
            assert(full(events[at]));
            laws::lemma_rows_are_periods(events[i], events[at], zone, all);
            let here = report::local_date(events[i].timestamp_unix_ms, zone)->0;
            calendar::lemma_date_text_injective(here, there);
        }
    }
    lemma_same_row(events, zone, grouping, all, stored);
}

/// Rows whose events are the same are the same.
proof fn lemma_same_row(
    events: Seq<EventModel>,
    zone: Seq<char>,
    one: Grouping,
    other: Grouping,
    stored: Seq<char>,
)
    requires
        report::clock_shows(events, zone),
        one.group_by == other.group_by,
        one.split_by_model == other.split_by_model,
        sums::any_where(events, report::of_row(zone, one, stored)),
        forall|i: int|
            0 <= i < events.len() ==> report::of_row(zone, one, stored)(#[trigger] events[i])
                == report::of_row(zone, other, stored)(events[i]),
    ensures
        sums::any_where(events, report::of_row(zone, other, stored)),
        report::row_of(events, zone, one, stored) == report::row_of(events, zone, other, stored),
{
    let a = report::of_row(zone, one, stored);
    let b = report::of_row(zone, other, stored);
    laws::lemma_same_events_same_usage(events, a, b);
    lemma_same_models(events, a, b);
    lemma_same_first(events, a, b);
    laws::lemma_first_is_meant(events, a);
    let first = sums::first_where(events, a);
    let i = choose|i: int| 0 <= i < events.len() && events[i] == first;
    assert(b(events[i]));
}

/// Tests that mean the same events give the same totals.
pub(crate) proof fn lemma_same_models(events: Seq<EventModel>, a: sums::EventTest, b: sums::EventTest)
    requires
        forall|i: int| 0 <= i < events.len() ==> a(#[trigger] events[i]) == b(events[i]),
    ensures
        sums::models_where(events, a) == sums::models_where(events, b),
{
    let (x, y) = (sums::models_where(events, a), sums::models_where(events, b));
    assert forall|model: Seq<char>|
        #![trigger x.dom().contains(model)]
        #![trigger y.dom().contains(model)]
        x.dom().contains(model) == y.dom().contains(model) && (x.dom().contains(model) ==> x[model]
            == y[model]) by {
        laws::lemma_same_events_same_usage(
            events,
            sums::of_model(a, model),
            sums::of_model(b, model),
        );
    }
    assert(x =~= y);
}

proof fn lemma_same_first(events: Seq<EventModel>, a: sums::EventTest, b: sums::EventTest)
    requires
        forall|i: int| 0 <= i < events.len() ==> a(#[trigger] events[i]) == b(events[i]),
    ensures
        sums::first_where(events, a) == sums::first_where(events, b),
    decreases events.len(),
{
    if events.len() > 1 {
        let shorter = events.drop_last();
        assert forall|i: int| 0 <= i < shorter.len() implies a(#[trigger] shorter[i]) == b(
            shorter[i],
        ) by {
            assert(shorter[i] == events[i]);
        }
        laws::lemma_same_events_same_usage(shorter, a, b);
        lemma_same_first(shorter, a, b);
    }
}

/// The way of grouping with rows split by model, or not.
pub open spec fn split(grouping: Grouping, split_by_model: bool) -> Grouping {
    Grouping { split_by_model, ..grouping }
}

/// Splitting by model parts each row into one row for each of its models: a row of its own for
/// exactly the models that the whole row lists, with the totals that the whole row gives them.
pub proof fn lemma_split_rows(
    events: Seq<EventModel>,
    zone: Seq<char>,
    grouping: Grouping,
    key: Seq<char>,
    model: Seq<char>,
)
    requires
        report::clock_shows(events, zone),
        laws::is_plain(key),
    ensures
        ({
            let whole = report::report_of(events, zone, split(grouping, false));
            let parts = report::report_of(events, zone, split(grouping, true));
            let stored = report::storage_key(key, model, true);
            &&& parts.dom().contains(stored) <==> whole.dom().contains(key)
                && whole[key].models.dom().contains(model)
            &&& parts.dom().contains(stored) ==> {
                &&& parts[stored].key == key
                &&& parts[stored].usage == whole[key].models[model].usage
                &&& parts[stored].models == Map::<Seq<char>, TotalsModel>::empty().insert(
                    model,
                    whole[key].models[model],
                )
            }
        }),
{
    let (one, many) = (split(grouping, false), split(grouping, true));
    let stored = report::storage_key(key, model, true);
    let part = report::of_row(zone, many, stored);
    let its = sums::of_model(report::of_row(zone, one, key), model);
    assert forall|i: int| 0 <= i < events.len() implies part(#[trigger] events[i]) == its(
        events[i],
    ) by {
        lemma_part_of_row(events[i], zone, grouping, key, model);
    }
    laws::lemma_same_events_same_usage(events, part, its);
    let whole = report::report_of(events, zone, one);
    let parts = report::report_of(events, zone, many);
    if sums::any_where(events, its) {
        let i = choose|i: int| 0 <= i < events.len() && its(#[trigger] events[i]);
        assert(report::of_row(zone, one, key)(events[i]));
        assert(whole.dom().contains(key));
        laws::lemma_first_is_meant(events, part);
        let first = sums::first_where(events, part);
        let j = choose|j: int| 0 <= j < events.len() && events[j] == first;
        assert(its(events[j]));
        let models = parts[stored].models;
        let expected = Map::<Seq<char>, TotalsModel>::empty().insert(
            model,
            whole[key].models[model],
        );
        assert forall|other: Seq<char>|
            #![trigger models.dom().contains(other)]
            #![trigger expected.dom().contains(other)]
            models.dom().contains(other) == expected.dom().contains(other) && (models.dom().contains(
                other,
            ) ==> models[other] == expected[other]) by {
            let theirs = sums::of_model(part, other);
            if other == model {
                laws::lemma_same_events_same_usage(events, theirs, its);
            } else if sums::any_where(events, theirs) {
                let k = choose|k: int| 0 <= k < events.len() && theirs(#[trigger] events[k]);
                assert(its(events[k]));
            }
        }
        assert(models =~= expected);
    }
}

proof fn lemma_part_of_row(
    event: EventModel,
    zone: Seq<char>,
    grouping: Grouping,
    key: Seq<char>,
    model: Seq<char>,
)
    requires
        report::clock_shows_at(event.timestamp_unix_ms, zone),
        laws::is_plain(key),
    ensures
        report::of_row(zone, split(grouping, true), report::storage_key(key, model, true))(event)
            == sums::of_model(report::of_row(zone, split(grouping, false), key), model)(event),
{
    if let Some(date) = report::local_date(event.timestamp_unix_ms, zone) {
        let period = report::period_text(date, grouping.group_by);
        laws::lemma_period_is_plain(date, grouping.group_by);
        if report::storage_key(period, event.model, true) == report::storage_key(key, model, true) {
            laws::lemma_parted(period, event.model, key, model);
        }
    }
}

/// A table is listed in one way only.
pub proof fn lemma_one_listing(
    a: Seq<ReportRow>,
    b: Seq<ReportRow>,
    table: Map<Seq<char>, RowModel>,
)
    requires
        report::lists_table(a, table),
        report::lists_table(b, table),
    ensures
        merge::row_list(a) == merge::row_list(b),
{
    let keys = choose|keys: Seq<Seq<char>>| report::lists(a, table, keys);
    let others = choose|keys: Seq<Seq<char>>| report::lists(b, table, keys);
    assert forall|key: Seq<char>| #[trigger] keys.contains(key) <==> others.contains(key) by {
        assert(table.dom().contains(key) <==> keys.contains(key));
        assert(table.dom().contains(key) <==> others.contains(key));
    }
    lemma_same_order(keys, others);
    assert forall|i: int| 0 <= i < a.len() implies merge::row_list(a)[i] == merge::row_list(
        b,
    )[i] by {
        assert(a[i]@ == table[keys[i]]);
        assert(b[i]@ == table[others[i]]);
    }
    assert(merge::row_list(a) =~= merge::row_list(b));
}

/// Texts can be put in order in one way only.
proof fn lemma_same_order(a: Seq<Seq<char>>, b: Seq<Seq<char>>)
    requires
        forall|i: int, j: int|
            0 <= i < j < a.len() ==> text::precedes(#[trigger] a[i], #[trigger] a[j]),
        forall|i: int, j: int|
            0 <= i < j < b.len() ==> text::precedes(#[trigger] b[i], #[trigger] b[j]),
        forall|key: Seq<char>| #[trigger] a.contains(key) <==> b.contains(key),
    ensures
        a == b,
    decreases a.len(),
{
    if a.len() == 0 {
        if b.len() > 0 {
            assert(a.contains(b[0]));
        }
        assert(a =~= b);
    } else {
        assert(b.contains(a.last())) by {
            assert(a[a.len() - 1] == a.last());
            assert(a.contains(a.last()));
        }
        let (p, q) = (a.drop_last(), b.drop_last());
        let (m, n) = (a.len() - 1, b.len() - 1);
        let j = choose|j: int| 0 <= j < b.len() && b[j] == a.last();
        assert(a.contains(b[n])) by {
            assert(b.contains(b[n]));
        }
        let i = choose|i: int| 0 <= i < a.len() && a[i] == b[n];
        if j < n {
            assert(text::precedes(b[j], b[n]));
            if i < m {
                assert(text::precedes(a[i], a[m]));
                text::lemma_not_after_total(a[m], b[n]);
            } else {
                text::lemma_precedes_irreflexive(b[n]);
            }
        }
        assert(a.last() == b.last());
        assert forall|key: Seq<char>| #[trigger] p.contains(key) <==> q.contains(key) by {
            if p.contains(key) {
                let k = choose|k: int| 0 <= k < p.len() && p[k] == key;
                assert(a[k] == key);
                assert(a.contains(key));
                assert(text::precedes(a[k], a[m]));
                text::lemma_precedes_irreflexive(key);
                let l = choose|l: int| 0 <= l < b.len() && b[l] == key;
                assert(q[l] == key);
            }
            if q.contains(key) {
                let k = choose|k: int| 0 <= k < q.len() && q[k] == key;
                assert(b[k] == key);
                assert(b.contains(key));
                assert(a.contains(key));
                assert(text::precedes(b[k], b[n]));
                text::lemma_precedes_irreflexive(key);
                let l = choose|l: int| 0 <= l < a.len() && a[l] == key;
                assert(p[l] == key);
            }
        }
        lemma_same_order(p, q);
        assert(a =~= p.push(a.last()));
        assert(b =~= q.push(b.last()));
    }
}

/// The rows of a report by day come in the order of the days, in the years 0 to 9999.
pub proof fn lemma_days_in_order(
    rows: Seq<ReportRow>,
    events: Seq<EventModel>,
    zone: Seq<char>,
    grouping: Grouping,
    i: int,
    j: int,
    a: CivilDate,
    b: CivilDate,
)
    requires
        report::lists_table(rows, report::report_of(events, zone, grouping)),
        !grouping.split_by_model,
        0 <= i < j < rows.len(),
        rows[i]@.key == calendar::date_text(a),
        rows[j]@.key == calendar::date_text(b),
        a.in_month(),
        b.in_month(),
        0 <= a.year <= 9999,
        0 <= b.year <= 9999,
    ensures
        a.earlier(b),
{
    let table = report::report_of(events, zone, grouping);
    let keys = choose|keys: Seq<Seq<char>>| report::lists(rows, table, keys);
    assert forall|k: int| 0 <= k < rows.len() implies (#[trigger] rows[k])@.key == keys[k] by {
        assert(keys.contains(keys[k]));
        assert(table.dom().contains(keys[k]));
        lemma_unsplit_key(events, zone, grouping, keys[k]);
    }
    assert(text::precedes(keys[i], keys[j]));
    calendar::lemma_date_text_order(a, b);
}

/// To choose events first and test them then is to test them for both.
proof fn lemma_chosen_first(
    events: Seq<EventModel>,
    choice: sums::EventTest,
    keep: sums::EventTest,
    both: sums::EventTest,
)
    requires
        forall|event: EventModel| #[trigger] both(event) == (choice(event) && keep(event)),
    ensures
        sums::usage_where(events, both) == sums::usage_where(events.filter(choice), keep),
        sums::any_where(events, both) == sums::any_where(events.filter(choice), keep),
        sums::fallback_where(events, both) == sums::fallback_where(events.filter(choice), keep),
        sums::any_where(events, both) ==> sums::first_where(events, both) == sums::first_where(
            events.filter(choice),
            keep,
        ),
    decreases events.len(),
{
    reveal(Seq::filter);
    if events.len() > 0 {
        let shorter = events.drop_last();
        let last = events.last();
        let chosen = shorter.filter(choice);
        lemma_chosen_first(shorter, choice, keep, both);
        assert(both(last) == (choice(last) && keep(last)));
        assert(events =~= shorter.push(last));
        sums::lemma_any_pushed(shorter, last, both);
        sums::lemma_any_pushed(chosen, last, keep);
        sums::lemma_usage_pushed(chosen, last, keep);
        assert(chosen.push(last).drop_last() =~= chosen);
        if sums::any_where(shorter, both) {
            let i = choose|i: int| 0 <= i < shorter.len() && both(#[trigger] shorter[i]);
            let j = choose|j: int| 0 <= j < chosen.len() && keep(#[trigger] chosen[j]);
            assert(shorter.len() > 0 && chosen.len() > 0);
        }
    }
}

/// The events that lie within the window of a report.
pub open spec fn within(zone: Seq<char>, grouping: Grouping) -> sums::EventTest {
    |event: EventModel|
        report::local_date(event.timestamp_unix_ms, zone) matches Some(date) && report::in_window(
            date,
            grouping.since,
            grouping.until,
        )
}

/// A report over a window is the report of the events within the window.
pub proof fn lemma_window_filters_events(
    events: Seq<EventModel>,
    zone: Seq<char>,
    grouping: Grouping,
)
    ensures
        report::report_of(events, zone, grouping) == report::report_of(
            events.filter(within(zone, grouping)),
            zone,
            unfiltered(grouping),
        ),
{
    let all = unfiltered(grouping);
    let inside = within(zone, grouping);
    let chosen = events.filter(inside);
    let x = report::report_of(events, zone, grouping);
    let y = report::report_of(chosen, zone, all);
    assert forall|stored: Seq<char>|
        #![trigger x.dom().contains(stored)]
        #![trigger y.dom().contains(stored)]
        x.dom().contains(stored) == y.dom().contains(stored) && (x.dom().contains(stored)
            ==> x[stored] == y[stored]) by {
        let keep = report::of_row(zone, all, stored);
        let both = report::of_row(zone, grouping, stored);
        lemma_chosen_first(events, inside, keep, both);
        let (p, q) = (sums::models_where(events, both), sums::models_where(chosen, keep));
        assert forall|model: Seq<char>|
            #![trigger p.dom().contains(model)]
            #![trigger q.dom().contains(model)]
            p.dom().contains(model) == q.dom().contains(model) && (p.dom().contains(model)
                ==> p[model] == q[model]) by {
            lemma_chosen_first(
                events,
                inside,
                sums::of_model(keep, model),
                sums::of_model(both, model),
            );
        }
        assert(p =~= q);
        if x.dom().contains(stored) {
            laws::lemma_first_is_meant(events, both);
        }
    }
    assert(x =~= y);
}

} // verus!
