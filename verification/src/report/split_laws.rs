//! What holds of reports with rows split by model.

use crate::report;
use crate::report::{Grouping, laws, merge, part_laws, sums};
use crate::types::{EventModel, ReportRow, RowModel};
use vstd::prelude::*;

verus! {

/// The row that the events that are meant make.
pub open spec fn row_where(
    events: Seq<EventModel>,
    keep: sums::EventTest,
    key: Seq<char>,
) -> RowModel {
    RowModel {
        key,
        usage: sums::usage_where(events, keep),
        models: sums::models_where(events, keep),
    }
}

/// The row of events that pass one of two tests that none passes both of.
proof fn lemma_row_of_either(
    events: Seq<EventModel>,
    a: sums::EventTest,
    b: sums::EventTest,
    either: sums::EventTest,
    key: Seq<char>,
)
    requires
        forall|i: int|
            0 <= i < events.len() ==> either(#[trigger] events[i]) == (a(events[i]) || b(
                events[i],
            )),
        forall|i: int| 0 <= i < events.len() ==> !(a(#[trigger] events[i]) && b(events[i])),
    ensures
        row_where(events, either, key) == merge::row_sum(
            row_where(events, a, key),
            row_where(events, b, key),
        ),
        sums::any_where(events, either) == (sums::any_where(events, a) || sums::any_where(
            events,
            b,
        )),
{
    laws::lemma_either(events, a, b, either);
    let all = sums::models_where(events, either);
    let sum = merge::models_sum(sums::models_where(events, a), sums::models_where(events, b));
    assert forall|model: Seq<char>|
        #![trigger all.dom().contains(model)]
        #![trigger sum.dom().contains(model)]
        all.dom().contains(model) == sum.dom().contains(model) && (all.dom().contains(model)
            ==> all[model] == sum[model]) by {
        let (x, y) = (sums::of_model(a, model), sums::of_model(b, model));
        laws::lemma_either(events, x, y, sums::of_model(either, model));
        if !sums::any_where(events, x) {
            sums::lemma_none_used(events, x);
        }
        if !sums::any_where(events, y) {
            sums::lemma_none_used(events, y);
        }
    }
    assert(all =~= sum);
}

/// The events of a period whose rows, split by model, are among the first of a list.
pub open spec fn of_first_rows(
    zone: Seq<char>,
    grouping: Grouping,
    keys: Seq<Seq<char>>,
    n: int,
    key: Seq<char>,
) -> sums::EventTest {
    |event: EventModel|
        report::of_row(zone, part_laws::split(grouping, false), key)(event) && keys.take(
            n,
        ).contains(report::place_of(event, zone, part_laws::split(grouping, true))->0.storage_key)
}

/// The first rows of a report split by model, put together by period, tell of their events.
proof fn lemma_first_rows(
    events: Seq<EventModel>,
    zone: Seq<char>,
    grouping: Grouping,
    keys: Seq<Seq<char>>,
    rows: Seq<RowModel>,
    n: int,
    key: Seq<char>,
)
    requires
        report::clock_shows(events, zone),
        keys.no_duplicates(),
        rows.len() == keys.len(),
        forall|i: int|
            0 <= i < keys.len() ==> sums::any_where(
                events,
                report::of_row(zone, part_laws::split(grouping, true), #[trigger] keys[i]),
            ) && rows[i] == report::row_of(
                events,
                zone,
                part_laws::split(grouping, true),
                keys[i],
            ),
        0 <= n <= rows.len(),
    ensures
        merge::merged(rows.take(n)).dom().contains(key) == sums::any_where(
            events,
            of_first_rows(zone, grouping, keys, n, key),
        ),
        merge::row_in(merge::merged(rows.take(n)), key) == row_where(
            events,
            of_first_rows(zone, grouping, keys, n, key),
            key,
        ),
    decreases n,
{
    let (one, many) = (part_laws::split(grouping, false), part_laws::split(grouping, true));
    let these = of_first_rows(zone, grouping, keys, n, key);
    if n == 0 {
        assert(keys.take(0) =~= Seq::empty());
        assert(!sums::any_where(events, these));
        lemma_row_of_none(events, these, key);
    } else {
        let last = n - 1;
        let before = of_first_rows(zone, grouping, keys, last, key);
        let part = report::of_row(zone, many, keys[last]);
        let row = rows[last];
        lemma_first_rows(events, zone, grouping, keys, rows, last, key);
        assert(rows.take(n).drop_last() =~= rows.take(last));
        assert(sums::any_where(events, part));
        assert forall|i: int| 0 <= i < events.len() implies {
            &&& part(#[trigger] events[i]) ==> report::of_row(zone, one, row.key)(events[i])
            &&& these(events[i]) == (before(events[i]) || part(events[i]) && key == row.key)
            &&& !(before(events[i]) && part(events[i]))
        } by {
            let event = events[i];
            assert(report::clock_shows_at(event.timestamp_unix_ms, zone));
            if part(event) {
                laws::lemma_key_of_row(events, event, zone, many, keys[last]);
            }
            let stored = report::place_of(event, zone, many)->0.storage_key;
            assert(keys.take(n) =~= keys.take(last).push(keys[last]));
            if keys.take(n).contains(stored) {
                let j = choose|j: int| 0 <= j < n && keys.take(n)[j] == stored;
                if j < last {
                    assert(keys.take(last)[j] == stored);
                }
            }
            if keys.take(last).contains(stored) {
                let j = choose|j: int| 0 <= j < last && keys.take(last)[j] == stored;
                assert(keys.take(n)[j] == stored);
                assert(keys[j] != keys[last]);
            }
            assert(keys.take(n)[last] == keys[last]);
        }
        if key == row.key {
            lemma_row_of_either(events, before, part, these, key);
        } else {
            laws::lemma_same_events_same_usage(events, these, before);
            part_laws::lemma_same_models(events, these, before);
        }
    }
}

/// Events none of which is meant make an empty row.
pub(crate) proof fn lemma_row_of_none(events: Seq<EventModel>, keep: sums::EventTest, key: Seq<char>)
    requires
        !sums::any_where(events, keep),
    ensures
        row_where(events, keep, key) == report::empty_row(key),
{
    sums::lemma_none_used(events, keep);
    let models = sums::models_where(events, keep);
    assert forall|model: Seq<char>| !(#[trigger] models.dom().contains(model)) by {
        if sums::any_where(events, sums::of_model(keep, model)) {
            let i = choose|i: int|
                0 <= i < events.len() && sums::of_model(keep, model)(#[trigger] events[i]);
            assert(keep(events[i]));
        }
    }
    assert(models =~= Map::empty());
}

/// The rows of a report split by model, those of one period put together, are the rows of the
/// report that is not split.
pub proof fn lemma_split_rows_make_the_report(
    events: Seq<EventModel>,
    zone: Seq<char>,
    grouping: Grouping,
    parts: Seq<ReportRow>,
    whole: Seq<ReportRow>,
)
    requires
        report::clock_shows(events, zone),
        report::lists_table(
            parts,
            report::report_of(events, zone, part_laws::split(grouping, true)),
        ),
        report::lists_table(
            whole,
            report::report_of(events, zone, part_laws::split(grouping, false)),
        ),
    ensures
        merge::merged(merge::row_list(parts)) == report::report_of(
            events,
            zone,
            part_laws::split(grouping, false),
        ),
        report::lists_table(whole, merge::merged(merge::row_list(parts))),
{
    let (one, many) = (part_laws::split(grouping, false), part_laws::split(grouping, true));
    let table = report::report_of(events, zone, many);
    let rows = merge::row_list(parts);
    let keys = choose|keys: Seq<Seq<char>>| report::lists(parts, table, keys);
    laws::lemma_distinct(keys);
    assert forall|i: int| 0 <= i < keys.len() implies sums::any_where(
        events,
        report::of_row(zone, many, #[trigger] keys[i]),
    ) && rows[i] == report::row_of(events, zone, many, keys[i]) by {
        assert(keys.contains(keys[i]));
        assert(table.dom().contains(keys[i]));
        assert(parts[i]@ == table[keys[i]]);
    }
    let n = rows.len() as int;
    assert(rows.take(n) =~= rows);
    let expected = report::report_of(events, zone, one);
    let merged = merge::merged(rows);
    assert forall|key: Seq<char>|
        #![trigger merged.dom().contains(key)]
        #![trigger expected.dom().contains(key)]
        merged.dom().contains(key) == expected.dom().contains(key) && merge::row_in(merged, key)
            == merge::row_in(expected, key) by {
        let these = of_first_rows(zone, grouping, keys, n, key);
        let its = report::of_row(zone, one, key);
        lemma_first_rows(events, zone, grouping, keys, rows, n, key);
        assert forall|i: int| 0 <= i < events.len() implies these(#[trigger] events[i]) == its(
            events[i],
        ) by {
            if its(events[i]) {
                let stored = report::place_of(events[i], zone, many)->0.storage_key;
                assert(report::of_row(zone, many, stored)(events[i]));
                assert(sums::any_where(events, report::of_row(zone, many, stored)));
                assert(table.dom().contains(stored));
                assert(keys.take(n) =~= keys);
            }
        }
        laws::lemma_same_events_same_usage(events, these, its);
        part_laws::lemma_same_models(events, these, its);
        part_laws::lemma_row_or_none(events, zone, one, key);
    }
    assert(merged =~= expected);
}

} // verus!
