//! What holds of every report.

use crate::calendar;
use crate::calendar::CivilDate;
use crate::report;
use crate::report::sessions;
use crate::report::sessions::SessionRowModel;
use crate::report::sums;
use crate::report::{GroupBy, Grouping};
use crate::text;
use crate::types::{EventModel, ReportRow, SessionModel, TokenCounts};
use vstd::prelude::*;

verus! {

/// Two tests that agree on the events of a list mean the same usage.
pub proof fn lemma_same_events_same_usage(
    events: Seq<EventModel>,
    a: sums::EventTest,
    b: sums::EventTest,
)
    requires
        forall|i: int| 0 <= i < events.len() ==> a(#[trigger] events[i]) == b(events[i]),
    ensures
        sums::usage_where(events, a) == sums::usage_where(events, b),
        sums::any_where(events, a) == sums::any_where(events, b),
        sums::fallback_where(events, a) == sums::fallback_where(events, b),
        sums::latest_where(events, a) == sums::latest_where(events, b),
    decreases events.len(),
{
    if events.len() > 0 {
        let shorter = events.drop_last();
        assert forall|i: int| 0 <= i < shorter.len() implies a(#[trigger] shorter[i]) == b(
            shorter[i],
        ) by {
            assert(shorter[i] == events[i]);
        }
        lemma_same_events_same_usage(shorter, a, b);
        assert(a(events[events.len() - 1]) == b(events[events.len() - 1]));
        assert(events =~= shorter.push(events.last()));
        sums::lemma_any_pushed(shorter, events.last(), a);
        sums::lemma_any_pushed(shorter, events.last(), b);
    }
}

/// The usage of two lists is that of one after the other.
pub proof fn lemma_usage_of_both(a: Seq<EventModel>, b: Seq<EventModel>, keep: sums::EventTest)
    ensures
        sums::usage_where(a + b, keep) == sums::usage_where(a, keep).plus(
            sums::usage_where(b, keep),
        ),
        sums::any_where(a + b, keep) == (sums::any_where(a, keep) || sums::any_where(b, keep)),
        sums::fallback_where(a + b, keep) == (sums::fallback_where(a, keep)
            || sums::fallback_where(b, keep)),
    decreases b.len(),
{
    if b.len() == 0 {
        assert(a + b =~= a);
        assert(!sums::any_where(b, keep));
        assert(!sums::fallback_where(b, keep));
    } else {
        let shorter = b.drop_last();
        lemma_usage_of_both(a, shorter, keep);
        assert(a + b =~= (a + shorter).push(b.last()));
        assert(b =~= shorter.push(b.last()));
        sums::lemma_usage_pushed(a + shorter, b.last(), keep);
        sums::lemma_usage_pushed(shorter, b.last(), keep);
        sums::lemma_any_pushed(a + shorter, b.last(), keep);
        sums::lemma_any_pushed(shorter, b.last(), keep);
    }
}

/// The usage of events that pass one of two tests that none passes both of.
pub(crate) proof fn lemma_either(
    events: Seq<EventModel>,
    a: sums::EventTest,
    b: sums::EventTest,
    either: sums::EventTest,
)
    requires
        forall|i: int|
            0 <= i < events.len() ==> either(#[trigger] events[i]) == (a(events[i]) || b(
                events[i],
            )),
        forall|i: int| 0 <= i < events.len() ==> !(a(#[trigger] events[i]) && b(events[i])),
    ensures
        sums::usage_where(events, either) == sums::usage_where(events, a).plus(
            sums::usage_where(events, b),
        ),
        sums::any_where(events, either) == (sums::any_where(events, a) || sums::any_where(
            events,
            b,
        )),
        sums::fallback_where(events, either) == (sums::fallback_where(events, a)
            || sums::fallback_where(events, b)),
    decreases events.len(),
{
    if events.len() > 0 {
        let fewer = events.drop_last();
        assert forall|i: int| 0 <= i < fewer.len() implies either(#[trigger] fewer[i]) == (a(
            fewer[i],
        ) || b(fewer[i])) && !(a(fewer[i]) && b(fewer[i])) by {
            assert(fewer[i] == events[i]);
        }
        lemma_either(fewer, a, b, either);
        let last = events[events.len() - 1];
        assert(either(last) == (a(last) || b(last)) && !(a(last) && b(last)));
        assert(events =~= fewer.push(last));
        sums::lemma_any_pushed(fewer, last, a);
        sums::lemma_any_pushed(fewer, last, b);
        sums::lemma_any_pushed(fewer, last, either);
    }
}

/// A way to tell events into classes; an event may be in none.
pub type EventClass = spec_fn(EventModel) -> Option<Seq<char>>;

/// The events of a class.
pub open spec fn in_class(class: EventClass, name: Seq<char>) -> sums::EventTest {
    |event: EventModel| class(event) == Some(name)
}

/// The events of any of some classes.
pub open spec fn in_classes(class: EventClass, names: Seq<Seq<char>>) -> sums::EventTest {
    |event: EventModel| class(event) matches Some(name) && names.contains(name)
}

/// The sum of the usage of some classes.
pub open spec fn usage_of_classes(
    events: Seq<EventModel>,
    class: EventClass,
    names: Seq<Seq<char>>,
) -> TokenCounts
    decreases names.len(),
{
    if names.len() == 0 {
        TokenCounts::zero()
    } else {
        usage_of_classes(events, class, names.drop_last()).plus(
            sums::usage_where(events, in_class(class, names.last())),
        )
    }
}

/// The usage of different classes adds up to that of their events.
pub proof fn lemma_classes_add_up(
    events: Seq<EventModel>,
    class: EventClass,
    names: Seq<Seq<char>>,
)
    requires
        names.no_duplicates(),
    ensures
        usage_of_classes(events, class, names) == sums::usage_where(
            events,
            in_classes(class, names),
        ),
    decreases names.len(),
{
    if names.len() == 0 {
        assert(!sums::any_where(events, in_classes(class, names)));
        sums::lemma_none_used(events, in_classes(class, names));
    } else {
        let fewer = names.drop_last();
        let last = names.last();
        lemma_classes_add_up(events, class, fewer);
        let a = in_classes(class, fewer);
        let b = in_class(class, last);
        let either = in_classes(class, names);
        assert forall|event: EventModel| #[trigger] either(event) == (a(event) || b(event)) by {
            if let Some(name) = class(event) {
                if names.contains(name) {
                    let i = choose|i: int| 0 <= i < names.len() && names[i] == name;
                    if i < fewer.len() {
                        assert(fewer[i] == name);
                    }
                }
                if fewer.contains(name) {
                    let i = choose|i: int| 0 <= i < fewer.len() && fewer[i] == name;
                    assert(names[i] == name);
                }
                if name == last {
                    assert(names[names.len() - 1] == name);
                }
            }
        }
        assert forall|event: EventModel| !(#[trigger] a(event) && b(event)) by {
            if a(event) && b(event) {
                let i = choose|i: int| 0 <= i < fewer.len() && fewer[i] == last;
                assert(names[i] == names[names.len() - 1]);
            }
        }
        lemma_either(events, a, b, either);
    }
}

/// The row of an event as a class.
pub open spec fn by_row(zone: Seq<char>, grouping: Grouping) -> EventClass {
    |event: EventModel|
        match report::place_of(event, zone, grouping) {
            Some(place) => Some(place.storage_key),
            None => None,
        }
}

/// The events that a report counts.
pub open spec fn reported(zone: Seq<char>, grouping: Grouping) -> sums::EventTest {
    |event: EventModel| report::place_of(event, zone, grouping) is Some
}

/// The sum of the usage of rows.
pub open spec fn usage_of_rows(rows: Seq<ReportRow>) -> TokenCounts
    decreases rows.len(),
{
    if rows.len() == 0 {
        TokenCounts::zero()
    } else {
        usage_of_rows(rows.drop_last()).plus(rows.last()@.usage)
    }
}

proof fn lemma_listed_usage(
    rows: Seq<ReportRow>,
    keys: Seq<Seq<char>>,
    events: Seq<EventModel>,
    zone: Seq<char>,
    grouping: Grouping,
)
    requires
        rows.len() == keys.len(),
        forall|i: int|
            0 <= i < rows.len() ==> (#[trigger] rows[i])@.usage == sums::usage_where(
                events,
                report::of_row(zone, grouping, keys[i]),
            ),
    ensures
        usage_of_rows(rows) == usage_of_classes(events, by_row(zone, grouping), keys),
    decreases rows.len(),
{
    if rows.len() > 0 {
        let fewer = rows.drop_last();
        assert forall|i: int| 0 <= i < fewer.len() implies (#[trigger] fewer[i])@.usage
            == sums::usage_where(
            events,
            report::of_row(zone, grouping, keys.drop_last()[i]),
        ) by {
            assert(fewer[i] == rows[i]);
        }
        lemma_listed_usage(fewer, keys.drop_last(), events, zone, grouping);
        let last = rows.len() - 1;
        assert(rows[last]@.usage == sums::usage_where(
            events,
            report::of_row(zone, grouping, keys[last]),
        ));
        lemma_same_events_same_usage(
            events,
            report::of_row(zone, grouping, keys[last]),
            in_class(by_row(zone, grouping), keys[last]),
        );
    }
}

/// Texts in order are all different.
pub(crate) proof fn lemma_distinct(keys: Seq<Seq<char>>)
    requires
        forall|i: int, j: int|
            0 <= i < j < keys.len() ==> text::precedes(#[trigger] keys[i], #[trigger] keys[j]),
    ensures
        keys.no_duplicates(),
{
    assert forall|i: int, j: int|
        0 <= i < keys.len() && 0 <= j < keys.len() && i != j implies keys[i] != keys[j] by {
        if i < j {
            assert(text::precedes(keys[i], keys[j]));
        } else {
            assert(text::precedes(keys[j], keys[i]));
        }
        text::lemma_precedes_irreflexive(keys[i]);
    }
}

/// The rows of a report add up to the usage of the events that it counts: none is lost, and none is
/// counted twice.
pub proof fn lemma_rows_add_up(
    rows: Seq<ReportRow>,
    events: Seq<EventModel>,
    zone: Seq<char>,
    grouping: Grouping,
)
    requires
        report::lists_table(rows, report::report_of(events, zone, grouping)),
    ensures
        usage_of_rows(rows) == sums::usage_where(events, reported(zone, grouping)),
{
    let table = report::report_of(events, zone, grouping);
    let keys = choose|keys: Seq<Seq<char>>| report::lists(rows, table, keys);
    lemma_distinct(keys);
    assert forall|i: int| 0 <= i < rows.len() implies (#[trigger] rows[i])@.usage
        == sums::usage_where(events, report::of_row(zone, grouping, keys[i])) by {
        assert(keys.contains(keys[i]));
        assert(table.dom().contains(keys[i]));
    }
    lemma_listed_usage(rows, keys, events, zone, grouping);
    lemma_classes_add_up(events, by_row(zone, grouping), keys);
    assert forall|i: int| 0 <= i < events.len() implies in_classes(by_row(zone, grouping), keys)(
        #[trigger] events[i],
    ) == reported(zone, grouping)(events[i]) by {
        if let Some(place) = report::place_of(events[i], zone, grouping) {
            let keep = report::of_row(zone, grouping, place.storage_key);
            assert(keep(events[i]));
            assert(sums::any_where(events, keep));
            assert(table.dom().contains(place.storage_key));
            assert(keys.contains(place.storage_key));
        }
    }
    lemma_same_events_same_usage(
        events,
        in_classes(by_row(zone, grouping), keys),
        reported(zone, grouping),
    );
}

/// A report without a window counts every event of the calendar's years.
pub proof fn lemma_unfiltered_report_counts_all(
    rows: Seq<ReportRow>,
    events: Seq<EventModel>,
    zone: Seq<char>,
    grouping: Grouping,
)
    requires
        report::lists_table(rows, report::report_of(events, zone, grouping)),
        report::clock_shows(events, zone),
        grouping.since is None,
        grouping.until is None,
        forall|i: int|
            0 <= i < events.len() ==> calendar::FIRST_INSTANT <= (
            #[trigger] events[i]).timestamp_unix_ms <= calendar::LAST_INSTANT,
    ensures
        usage_of_rows(rows) == sums::all_usage(events),
{
    lemma_rows_add_up(rows, events, zone, grouping);
    lemma_same_events_same_usage(events, reported(zone, grouping), sums::every());
}

/// The model of an event as a class, among the events that are meant.
pub open spec fn by_model(keep: sums::EventTest) -> EventClass {
    |event: EventModel|
        if keep(event) {
            Some(event.model)
        } else {
            None
        }
}

/// The totals of the models of a row add up to the usage of the row.
pub proof fn lemma_models_add_up(
    events: Seq<EventModel>,
    keep: sums::EventTest,
    models: Seq<Seq<char>>,
)
    requires
        models.no_duplicates(),
        forall|model: Seq<char>| #[trigger]
            models.contains(model) <==> sums::models_where(events, keep).dom().contains(model),
    ensures
        usage_of_classes(events, by_model(keep), models) == sums::usage_where(events, keep),
        forall|i: int|
            0 <= i < models.len() ==> sums::models_where(events, keep)[#[trigger] models[i]].usage
                == sums::usage_where(events, in_class(by_model(keep), models[i])),
{
    let table = sums::models_where(events, keep);
    lemma_classes_add_up(events, by_model(keep), models);
    assert forall|i: int| 0 <= i < events.len() implies in_classes(by_model(keep), models)(
        #[trigger] events[i],
    ) == keep(events[i]) by {
        if keep(events[i]) {
            let its = sums::of_model(keep, events[i].model);
            assert(its(events[i]));
            assert(sums::any_where(events, its));
            assert(table.dom().contains(events[i].model));
        }
    }
    lemma_same_events_same_usage(events, in_classes(by_model(keep), models), keep);
    assert forall|i: int| 0 <= i < models.len() implies table[#[trigger] models[i]].usage
        == sums::usage_where(events, in_class(by_model(keep), models[i])) by {
        assert(models.contains(models[i]));
        assert(table.dom().contains(models[i]));
        lemma_same_events_same_usage(
            events,
            sums::of_model(keep, models[i]),
            in_class(by_model(keep), models[i]),
        );
    }
}

/// The latest instant is that of an event that is meant, and none that is meant comes after it.
pub proof fn lemma_latest_is_last(events: Seq<EventModel>, keep: sums::EventTest)
    ensures
        sums::latest_where(events, keep) is Some <==> sums::any_where(events, keep),
        sums::latest_where(events, keep) matches Some(latest) ==> {
            &&& exists|i: int|
                0 <= i < events.len() && keep(#[trigger] events[i]) && events[i].timestamp_unix_ms
                    == latest
            &&& forall|i: int|
                0 <= i < events.len() && keep(#[trigger] events[i]) ==> events[i].timestamp_unix_ms
                    <= latest
        },
    decreases events.len(),
{
    if events.len() > 0 {
        let shorter = events.drop_last();
        let last = events.len() - 1;
        lemma_latest_is_last(shorter, keep);
        assert(events =~= shorter.push(events.last()));
        sums::lemma_any_pushed(shorter, events.last(), keep);
        if let Some(latest) = sums::latest_where(events, keep) {
            assert forall|i: int| 0 <= i < events.len() && keep(#[trigger] events[i]) implies events[
                i
            ].timestamp_unix_ms <= latest by {
                if i < last {
                    assert(shorter[i] == events[i]);
                }
            }
            if sums::latest_where(shorter, keep) == Some(latest) {
                let i = choose|i: int|
                    0 <= i < shorter.len() && keep(#[trigger] shorter[i])
                        && shorter[i].timestamp_unix_ms == latest;
                assert(events[i] == shorter[i]);
            } else {
                assert(keep(events[last]));
            }
        }
    }
}

/// The sum of the usage of sessions' rows.
pub open spec fn usage_of_sessions(rows: Seq<SessionRowModel>) -> TokenCounts
    decreases rows.len(),
{
    if rows.len() == 0 {
        TokenCounts::zero()
    } else {
        usage_of_sessions(rows.drop_last()).plus(rows.last().usage)
    }
}

/// The rows of sessions add up to the usage of all their events within the window.
pub proof fn lemma_sessions_add_up(
    all: Seq<SessionModel>,
    zone: Seq<char>,
    since: Option<CivilDate>,
    until: Option<CivilDate>,
)
    ensures
        usage_of_sessions(sessions::rows_of_sessions(all, zone, since, until))
            == sums::usage_where(report::all_events(all), sessions::of_window(zone, since, until)),
    decreases all.len(),
{
    let keep = sessions::of_window(zone, since, until);
    if all.len() > 0 {
        let fewer = all.drop_last();
        let last = all.last();
        lemma_sessions_add_up(fewer, zone, since, until);
        lemma_usage_of_both(report::all_events(fewer), last.events, keep);
        lemma_latest_is_last(last.events, keep);
        let before = sessions::rows_of_sessions(fewer, zone, since, until);
        match sessions::row_of_session(last, zone, since, until) {
            Some(row) => {
                assert(before.push(row).drop_last() =~= before);
            },
            None => {
                sums::lemma_none_used(last.events, keep);
            },
        }
    }
}

/// The reports by period and by session over the same window tell of the same usage.
pub proof fn lemma_reports_agree(
    rows: Seq<ReportRow>,
    all: Seq<SessionModel>,
    zone: Seq<char>,
    grouping: Grouping,
)
    requires
        report::lists_table(
            rows,
            report::report_of(report::all_events(all), zone, grouping),
        ),
    ensures
        usage_of_rows(rows) == usage_of_sessions(
            sessions::rows_of_sessions(all, zone, grouping.since, grouping.until),
        ),
{
    let events = report::all_events(all);
    lemma_rows_add_up(rows, events, zone, grouping);
    lemma_sessions_add_up(all, zone, grouping.since, grouping.until);
    lemma_same_events_same_usage(
        events,
        reported(zone, grouping),
        sessions::of_window(zone, grouping.since, grouping.until),
    );
}

/// A session has a row exactly when one of its events counts.
pub proof fn lemma_session_has_row(
    session: SessionModel,
    zone: Seq<char>,
    since: Option<CivilDate>,
    until: Option<CivilDate>,
)
    ensures
        sessions::row_of_session(session, zone, since, until) is Some <==> sums::any_where(
            session.events,
            sessions::of_window(zone, since, until),
        ),
{
    lemma_latest_is_last(session.events, sessions::of_window(zone, since, until));
}

/// In a report of all days, every session has a row that has an event of the calendar's years.
pub proof fn lemma_active_sessions_are_listed(session: SessionModel, zone: Seq<char>)
    requires
        report::clock_shows(session.events, zone),
        exists|i: int|
            0 <= i < session.events.len() && calendar::FIRST_INSTANT <= (
            #[trigger] session.events[i]).timestamp_unix_ms <= calendar::LAST_INSTANT,
    ensures
        sessions::row_of_session(session, zone, None, None) is Some,
{
    let i = choose|i: int|
        0 <= i < session.events.len() && calendar::FIRST_INSTANT <= (
        #[trigger] session.events[i]).timestamp_unix_ms <= calendar::LAST_INSTANT;
    assert(report::clock_shows_at(session.events[i].timestamp_unix_ms, zone));
    assert(sessions::of_window(zone, None, None)(session.events[i]));
    lemma_session_has_row(session, zone, None, None);
}

/// Whether a text does without the character that parts a period from a model.
pub open spec fn is_plain(key: Seq<char>) -> bool {
    !key.contains('\u{1f}')
}

/// The text of a period does without the character that parts it from a model.
pub(crate) proof fn lemma_period_is_plain(date: CivilDate, group_by: GroupBy)
    requires
        date.in_month(),
    ensures
        is_plain(report::period_text(date, group_by)),
{
    calendar::lemma_date_chars(date);
    let key = report::period_text(date, group_by);
    if key.contains('\u{1f}') {
        let i = choose|i: int| 0 <= i < key.len() && key[i] == '\u{1f}';
        assert(calendar::is_date_char(key[i]));
    }
}

/// A period and a model can be told from the key that is made of them.
pub(crate) proof fn lemma_parted(a: Seq<char>, model_a: Seq<char>, b: Seq<char>, model_b: Seq<char>)
    requires
        is_plain(a),
        is_plain(b),
        a.push('\u{1f}') + model_a == b.push('\u{1f}') + model_b,
    ensures
        a == b,
        model_a == model_b,
{
    let x = a.push('\u{1f}') + model_a;
    let y = b.push('\u{1f}') + model_b;
    if a.len() < b.len() {
        assert(x[a.len() as int] == '\u{1f}');
        assert(y[a.len() as int] == b[a.len() as int]);
        assert(b.contains('\u{1f}'));
    } else if b.len() < a.len() {
        assert(y[b.len() as int] == '\u{1f}');
        assert(x[b.len() as int] == a[b.len() as int]);
        assert(a.contains('\u{1f}'));
    }
    assert forall|i: int| 0 <= i < a.len() implies a[i] == b[i] by {
        assert(x[i] == a[i]);
        assert(y[i] == b[i]);
    }
    assert(a =~= b);
    assert(model_a =~= x.skip(a.len() as int + 1));
    assert(model_b =~= y.skip(b.len() as int + 1));
}

/// The row of an event is that of its period: two events are in one row only if they are in one
/// period, and, where rows are split by model, of one model.
pub proof fn lemma_rows_are_periods(
    a: EventModel,
    b: EventModel,
    zone: Seq<char>,
    grouping: Grouping,
)
    requires
        report::clock_shows_at(a.timestamp_unix_ms, zone),
        report::clock_shows_at(b.timestamp_unix_ms, zone),
        report::place_of(a, zone, grouping) is Some,
        report::place_of(b, zone, grouping) is Some,
    ensures
        report::place_of(a, zone, grouping)->0.storage_key == report::place_of(
            b,
            zone,
            grouping,
        )->0.storage_key <==> report::place_of(a, zone, grouping)->0.key == report::place_of(
            b,
            zone,
            grouping,
        )->0.key && (grouping.split_by_model ==> a.model == b.model),
{
    let day_a = report::local_date(a.timestamp_unix_ms, zone)->0;
    let day_b = report::local_date(b.timestamp_unix_ms, zone)->0;
    let key_a = report::period_text(day_a, grouping.group_by);
    let key_b = report::period_text(day_b, grouping.group_by);
    lemma_period_is_plain(day_a, grouping.group_by);
    lemma_period_is_plain(day_b, grouping.group_by);
    if grouping.split_by_model && report::storage_key(key_a, a.model, true) == report::storage_key(
        key_b,
        b.model,
        true,
    ) {
        lemma_parted(key_a, a.model, key_b, b.model);
    }
}

/// The first event that is meant is one of the list, and is meant.
pub(crate) proof fn lemma_first_is_meant(events: Seq<EventModel>, keep: sums::EventTest)
    requires
        sums::any_where(events, keep),
    ensures
        keep(sums::first_where(events, keep)),
        exists|i: int| 0 <= i < events.len() && events[i] == sums::first_where(events, keep),
    decreases events.len(),
{
    let shorter = events.drop_last();
    let i = choose|i: int| 0 <= i < events.len() && keep(#[trigger] events[i]);
    if events.len() > 1 && sums::any_where(shorter, keep) {
        lemma_first_is_meant(shorter, keep);
        let j = choose|j: int|
            0 <= j < shorter.len() && shorter[j] == sums::first_where(shorter, keep);
        assert(events[j] == shorter[j]);
    } else {
        if i < shorter.len() {
            assert(keep(shorter[i]));
        }
        assert(events[events.len() - 1] == events.last());
    }
}

/// The period of a row is that of each of its events.
pub(crate) proof fn lemma_key_of_row(
    events: Seq<EventModel>,
    event: EventModel,
    zone: Seq<char>,
    grouping: Grouping,
    stored: Seq<char>,
)
    requires
        report::clock_shows(events, zone),
        report::clock_shows_at(event.timestamp_unix_ms, zone),
        report::of_row(zone, grouping, stored)(event),
        sums::any_where(events, report::of_row(zone, grouping, stored)),
    ensures
        report::row_of(events, zone, grouping, stored).key == report::place_of(
            event,
            zone,
            grouping,
        )->0.key,
{
    let keep = report::of_row(zone, grouping, stored);
    lemma_first_is_meant(events, keep);
    let first = sums::first_where(events, keep);
    let i = choose|i: int| 0 <= i < events.len() && events[i] == first;
    assert(report::clock_shows_at(events[i].timestamp_unix_ms, zone));
    lemma_rows_are_periods(first, event, zone, grouping);
}

/// Two lists of events that no test tells apart have the same rows.
proof fn lemma_same_rows(
    a: Seq<EventModel>,
    b: Seq<EventModel>,
    zone: Seq<char>,
    grouping: Grouping,
)
    requires
        report::clock_shows(a, zone),
        report::clock_shows(b, zone),
        forall|keep: sums::EventTest| #[trigger]
            sums::usage_where(a, keep) == sums::usage_where(b, keep),
        forall|keep: sums::EventTest| #[trigger]
            sums::any_where(a, keep) == sums::any_where(b, keep),
        forall|keep: sums::EventTest| #[trigger]
            sums::fallback_where(a, keep) == sums::fallback_where(b, keep),
    ensures
        report::report_of(a, zone, grouping) == report::report_of(b, zone, grouping),
{
    let x = report::report_of(a, zone, grouping);
    let y = report::report_of(b, zone, grouping);
    assert forall|stored: Seq<char>| x.dom().contains(stored) implies y.dom().contains(stored)
        && #[trigger] x[stored] == y[stored] by {
        let keep = report::of_row(zone, grouping, stored);
        assert(sums::any_where(a, keep) == sums::any_where(b, keep));
        assert(sums::usage_where(a, keep) == sums::usage_where(b, keep));
        lemma_first_is_meant(b, keep);
        let first = sums::first_where(b, keep);
        let i = choose|i: int| 0 <= i < b.len() && b[i] == first;
        assert(report::clock_shows_at(b[i].timestamp_unix_ms, zone));
        lemma_key_of_row(a, first, zone, grouping, stored);
        lemma_key_of_row(b, first, zone, grouping, stored);
        let (p, q) = (sums::models_where(a, keep), sums::models_where(b, keep));
        assert forall|model: Seq<char>| #[trigger]
            p.dom().contains(model) == q.dom().contains(model) && (p.dom().contains(model)
                ==> p[model] == q[model]) by {
            let its = sums::of_model(keep, model);
            assert(sums::any_where(a, its) == sums::any_where(b, its));
            assert(sums::usage_where(a, its) == sums::usage_where(b, its));
            assert(sums::fallback_where(a, its) == sums::fallback_where(b, its));
        }
        assert(p =~= q);
    }
    assert forall|stored: Seq<char>| #[trigger] y.dom().contains(stored) implies x.dom().contains(
        stored,
    ) by {
        let keep = report::of_row(zone, grouping, stored);
        assert(sums::any_where(a, keep) == sums::any_where(b, keep));
    }
    assert(x =~= y);
}

proof fn lemma_taken_out(events: Seq<EventModel>, at: int, keep: sums::EventTest)
    requires
        0 <= at < events.len(),
    ensures
        sums::usage_where(events, keep) == if keep(events[at]) {
            sums::usage_where(events.remove(at), keep).plus(events[at].usage@)
        } else {
            sums::usage_where(events.remove(at), keep)
        },
{
    let (start, end) = (events.take(at), events.skip(at + 1));
    let one = seq![events[at]];
    assert(events =~= start + (one + end));
    assert(events.remove(at) =~= start + end);
    lemma_usage_of_both(start, one + end, keep);
    lemma_usage_of_both(one, end, keep);
    lemma_usage_of_both(start, end, keep);
    assert(one.drop_last() =~= Seq::<EventModel>::empty());
    reveal_with_fuel(sums::usage_where, 2);
}

proof fn lemma_usage_in_any_order(
    a: Seq<EventModel>,
    b: Seq<EventModel>,
    keep: sums::EventTest,
)
    requires
        a.to_multiset() == b.to_multiset(),
    ensures
        sums::usage_where(a, keep) == sums::usage_where(b, keep),
        sums::any_where(a, keep) == sums::any_where(b, keep),
        sums::fallback_where(a, keep) == sums::fallback_where(b, keep),
    decreases a.len(),
{
    broadcast use vstd::seq_lib::group_to_multiset_ensures;

    assert(a.to_multiset().len() == a.len());
    assert(b.to_multiset().len() == b.len());
    if a.len() > 0 {
        let last = a.last();
        assert(a.to_multiset().count(last) > 0) by {
            assert(a.contains(last));
        }
        assert(b.contains(last));
        let at = choose|at: int| 0 <= at < b.len() && b[at] == last;
        let shorter = a.drop_last();
        assert(a =~= shorter.push(last));
        assert(b.remove(at).to_multiset() =~= shorter.to_multiset());
        lemma_usage_in_any_order(shorter, b.remove(at), keep);
        lemma_taken_out(b, at, keep);
        lemma_some_in_any_order(a, b, keep);
        lemma_some_in_any_order(b, a, keep);
    } else {
        assert(a =~= b);
    }
}

proof fn lemma_some_in_any_order(a: Seq<EventModel>, b: Seq<EventModel>, keep: sums::EventTest)
    requires
        a.to_multiset() == b.to_multiset(),
    ensures
        sums::any_where(a, keep) ==> sums::any_where(b, keep),
        sums::fallback_where(a, keep) ==> sums::fallback_where(b, keep),
{
    broadcast use vstd::seq_lib::group_to_multiset_ensures;

    assert forall|event: EventModel| a.contains(event) implies #[trigger] b.contains(event) by {
        assert(a.to_multiset().count(event) > 0);
    }
    if sums::any_where(a, keep) {
        let i = choose|i: int| 0 <= i < a.len() && keep(#[trigger] a[i]);
        assert(b.contains(a[i]));
        let j = choose|j: int| 0 <= j < b.len() && b[j] == a[i];
        assert(keep(b[j]));
    }
    if sums::fallback_where(a, keep) {
        let i = choose|i: int|
            0 <= i < a.len() && keep(#[trigger] a[i]) && a[i].is_fallback_model;
        assert(b.contains(a[i]));
        let j = choose|j: int| 0 <= j < b.len() && b[j] == a[i];
        assert(keep(b[j]));
    }
}

/// A report does not depend on the order of the events.
pub proof fn lemma_order_does_not_matter(
    a: Seq<EventModel>,
    b: Seq<EventModel>,
    zone: Seq<char>,
    grouping: Grouping,
)
    requires
        a.to_multiset() == b.to_multiset(),
        report::clock_shows(a, zone),
        report::clock_shows(b, zone),
    ensures
        report::report_of(a, zone, grouping) == report::report_of(b, zone, grouping),
{
    assert forall|keep: sums::EventTest| #[trigger]
        sums::usage_where(a, keep) == sums::usage_where(b, keep) by {
        lemma_usage_in_any_order(a, b, keep);
    }
    assert forall|keep: sums::EventTest| #[trigger]
        sums::any_where(a, keep) == sums::any_where(b, keep) by {
        lemma_usage_in_any_order(a, b, keep);
    }
    assert forall|keep: sums::EventTest| #[trigger]
        sums::fallback_where(a, keep) == sums::fallback_where(b, keep) by {
        lemma_usage_in_any_order(a, b, keep);
    }
    lemma_same_rows(a, b, zone, grouping);
}

} // verus!
