//! Reports: usage by day or month, and usage by session.

pub mod laws;
pub mod merge;
pub mod merge_laws;
pub mod part_laws;
pub mod row_laws;
pub mod session_laws;
pub mod sessions;
pub mod split_laws;
pub mod sums;

use crate::calendar;
use crate::calendar::{CivilDate, Timezone};
use crate::text;
use crate::text_map;
use crate::text_map::TextMap;
use crate::types;
use crate::types::{
    EventModel, ModelTotals, ReportRow, RowModel, SessionModel, SessionSummary, TokenCounts, Usage,
    UsageEvent,
};
pub use self::merge::{merge_rows, try_merge_rows};
pub use self::sessions::{SessionRow, aggregate_sessions, try_aggregate_sessions};
use vstd::prelude::*;

verus! {

/// The length of the periods of a report.
#[derive(Debug, Clone, Copy, PartialEq, Eq, Structural)]
pub enum GroupBy {
    Day,
    Month,
}

/// How events are put into the rows of a report.
pub struct Grouping {
    pub group_by: GroupBy,
    pub since: Option<CivilDate>,
    pub until: Option<CivilDate>,
    pub split_by_model: bool,
}

/// A way to put events into rows.
pub open spec fn grouping(
    group_by: GroupBy,
    since: Option<CivilDate>,
    until: Option<CivilDate>,
    split_by_model: bool,
) -> Grouping {
    Grouping { group_by, since, until, split_by_model }
}

/// The row that an event goes to: its period, and the key by which the row is kept.
pub struct Place {
    pub key: Seq<char>,
    pub storage_key: Seq<char>,
}

/// The local date of an instant.
pub open spec fn local_date(unix_ms: i64, zone: Seq<char>) -> Option<CivilDate> {
    match calendar::zone_clock(unix_ms, zone) {
        Some(time) => Some(time.date),
        None => None,
    }
}

/// Whether a date is neither before `since` nor after `until`.
pub open spec fn in_window(
    date: CivilDate,
    since: Option<CivilDate>,
    until: Option<CivilDate>,
) -> bool {
    &&& since matches Some(since) ==> !date.earlier(since)
    &&& until matches Some(until) ==> !until.earlier(date)
}

/// The text of the period that holds a date.
pub open spec fn period_text(date: CivilDate, group_by: GroupBy) -> Seq<char> {
    match group_by {
        GroupBy::Day => calendar::date_text(date),
        GroupBy::Month => calendar::month_text(date),
    }
}

/// The key of the row of a period, and of a model where rows are split by model.
pub open spec fn storage_key(key: Seq<char>, model: Seq<char>, split_by_model: bool) -> Seq<char> {
    if split_by_model {
        key.push('\u{1f}') + model
    } else {
        key
    }
}

/// The row of an event at a date, if the event counts.
pub open spec fn place_at(event: EventModel, date: Option<CivilDate>, grouping: Grouping) -> Option<
    Place,
> {
    match date {
        Some(date) => if in_window(date, grouping.since, grouping.until) {
            let key = period_text(date, grouping.group_by);
            Some(
                Place {
                    key,
                    storage_key: storage_key(key, event.model, grouping.split_by_model),
                },
            )
        } else {
            None
        },
        None => None,
    }
}

/// The row of an event, if the event counts.
pub open spec fn place_of(event: EventModel, zone: Seq<char>, grouping: Grouping) -> Option<Place> {
    place_at(event, local_date(event.timestamp_unix_ms, zone), grouping)
}

/// A row with an event.
pub open spec fn row_with(row: RowModel, event: EventModel) -> RowModel {
    RowModel {
        key: row.key,
        usage: row.usage.plus(event.usage@),
        models: sums::models_with(row.models, event),
    }
}

/// An empty row of a period.
pub open spec fn empty_row(key: Seq<char>) -> RowModel {
    RowModel { key, usage: TokenCounts::zero(), models: Map::empty() }
}

/// The row of a place, empty where there is none yet.
pub open spec fn row_at(rows: Map<Seq<char>, RowModel>, place: Place) -> RowModel {
    if rows.dom().contains(place.storage_key) {
        rows[place.storage_key]
    } else {
        empty_row(place.key)
    }
}

/// The rows with an event in its place.
pub open spec fn rows_with(
    rows: Map<Seq<char>, RowModel>,
    event: EventModel,
    place: Option<Place>,
) -> Map<Seq<char>, RowModel> {
    match place {
        Some(place) => rows.insert(place.storage_key, row_with(row_at(rows, place), event)),
        None => rows,
    }
}

/// Whether the counts of a row stay within 64 bits when an event is added.
pub open spec fn row_can_take(row: RowModel, event: EventModel) -> bool {
    &&& row.usage.plus(event.usage@).fits()
    &&& row.models.dom().contains(event.model) ==> row.models[event.model].usage.plus(
        event.usage@,
    ).fits()
}

/// Whether the counts stay within 64 bits when an event is put in its place.
pub open spec fn rows_can_take(
    rows: Map<Seq<char>, RowModel>,
    event: EventModel,
    place: Option<Place>,
) -> bool {
    place matches Some(place) ==> row_can_take(row_at(rows, place), event)
}

/// Whether a clock of the zone shows an instant exactly when it lies in the calendar's years, and
/// then on a day that exists.
pub open spec fn clock_shows_at(unix_ms: i64, zone: Seq<char>) -> bool {
    &&& local_date(unix_ms, zone) is Some <==> calendar::FIRST_INSTANT <= unix_ms
        <= calendar::LAST_INSTANT
    &&& local_date(unix_ms, zone) matches Some(date) ==> printable(date)
}

/// Whether a clock of the zone shows exactly the events in the calendar's years, each on a day that
/// exists.
pub open spec fn clock_shows(events: Seq<EventModel>, zone: Seq<char>) -> bool {
    forall|i: int|
        0 <= i < events.len() ==> clock_shows_at((#[trigger] events[i]).timestamp_unix_ms, zone)
}

/// The rows of a table by their keys.
pub open spec fn row_models(rows: Map<Seq<char>, ReportRow>) -> Map<Seq<char>, RowModel> {
    rows.map_values(|row: ReportRow| row@)
}

/// The local date of an instant.
pub fn event_date(timestamp_unix_ms: i64, timezone: &Timezone) -> (date: Option<CivilDate>)
    ensures
        date == local_date(timestamp_unix_ms, timezone@),
        date is Some <==> calendar::FIRST_INSTANT <= timestamp_unix_ms <= calendar::LAST_INSTANT,
        date matches Some(date) ==> printable(date),
{
    match timezone.local_time(timestamp_unix_ms) {
        Some(time) => Some(time.date),
        None => None,
    }
}

/// Whether a date can be written: a local date may lie a day outside the calendar's years.
pub open spec fn printable(date: CivilDate) -> bool {
    calendar::FIRST_YEAR - 1 <= date.year <= calendar::LAST_YEAR + 1 && date.in_month()
}

/// Whether a date is neither before `since` nor after `until`.
pub fn date_in_window(
    date: &CivilDate,
    since: &Option<CivilDate>,
    until: &Option<CivilDate>,
) -> (inside: bool)
    ensures
        inside == in_window(*date, *since, *until),
{
    if let Some(since) = since {
        if date.is_before(since) {
            return false;
        }
    }
    if let Some(until) = until {
        if until.is_before(date) {
            return false;
        }
    }
    true
}

/// The text of the period that holds a date.
pub fn period_key(date: &CivilDate, group_by: &GroupBy) -> (key: String)
    requires
        printable(*date),
    ensures
        key@ == period_text(*date, *group_by),
{
    match group_by {
        GroupBy::Day => calendar::format_date(date),
        GroupBy::Month => calendar::format_month(date),
    }
}

/// The text of the period of an instant.
pub fn event_key(timestamp_unix_ms: i64, timezone: &Timezone, group_by: &GroupBy) -> (key: Option<
    String,
>)
    ensures
        key is Some <==> calendar::FIRST_INSTANT <= timestamp_unix_ms <= calendar::LAST_INSTANT,
        key matches Some(key) ==> local_date(timestamp_unix_ms, timezone@) matches Some(date)
            && key@ == period_text(date, *group_by),
{
    match event_date(timestamp_unix_ms, timezone) {
        Some(date) => Some(period_key(&date, group_by)),
        None => None,
    }
}

/// The key by which the row of an event is kept.
pub fn row_storage_key(key: &str, event: &UsageEvent, split_by_model: bool) -> (stored: String)
    ensures
        stored@ == storage_key(key@, event.model@, split_by_model),
{
    let mut stored = key.to_owned();
    if split_by_model {
        stored.push('\u{1f}');
        stored.append(event.model.as_str());
    }
    stored
}

/// Adds an event at a local date to its row.
pub fn accumulate_at(
    rows: &mut TextMap<ReportRow>,
    event: &UsageEvent,
    date: Option<CivilDate>,
    group_by: &GroupBy,
    since: Option<CivilDate>,
    until: Option<CivilDate>,
    split_by_model: bool,
)
    requires
        date matches Some(date) ==> printable(date),
        rows_can_take(
            row_models(old(rows)@),
            event@,
            place_at(event@, date, grouping(*group_by, since, until, split_by_model)),
        ),
    ensures
        row_models(final(rows)@) == rows_with(
            row_models(old(rows)@),
            event@,
            place_at(event@, date, grouping(*group_by, since, until, split_by_model)),
        ),
{
    let date: CivilDate = match date {
        Some(date) => date,
        None => {
            return;
        },
    };
    if !date_in_window(&date, &since, &until) {
        return;
    }
    let ghost before = row_models(rows@);
    let key = period_key(&date, group_by);
    let stored = row_storage_key(key.as_str(), event, split_by_model);
    let ghost place = Place { key: key@, storage_key: stored@ };
    let mut row: ReportRow = match rows.remove(stored.as_str()) {
        Some(row) => row,
        None => ReportRow { key, usage: Usage::default(), models: TextMap::new() },
    };
    proof {
        assert(types::totals_by_model(Map::<Seq<char>, ModelTotals>::empty()) =~= Map::empty());
        assert(row@ == row_at(before, place));
    }
    row.usage.add_assign(&event.usage);
    sums::add_to_models(&mut row.models, event);
    rows.insert(stored, row);
    proof {
        assert(row_models(rows@) =~= rows_with(before, event@, Some(place)));
    }
}

/// Adds an event to its row, unless it lies outside the dates of the report.
pub fn accumulate_event(
    rows: &mut TextMap<ReportRow>,
    event: &UsageEvent,
    timezone: &Timezone,
    group_by: &GroupBy,
    since: Option<CivilDate>,
    until: Option<CivilDate>,
    split_by_model: bool,
)
    requires
        rows_can_take(
            row_models(old(rows)@),
            event@,
            place_of(event@, timezone@, grouping(*group_by, since, until, split_by_model)),
        ),
    ensures
        row_models(final(rows)@) == rows_with(
            row_models(old(rows)@),
            event@,
            place_of(event@, timezone@, grouping(*group_by, since, until, split_by_model)),
        ),
        clock_shows_at(event.timestamp_unix_ms, timezone@),
{
    let date = event_date(event.timestamp_unix_ms, timezone);
    accumulate_at(rows, event, date, group_by, since, until, split_by_model);
}

/// Adds an event to its row where the counts stay within 64 bits; tells whether they do.
pub fn try_accumulate_event(
    rows: &mut TextMap<ReportRow>,
    event: &UsageEvent,
    timezone: &Timezone,
    group_by: &GroupBy,
    since: Option<CivilDate>,
    until: Option<CivilDate>,
    split_by_model: bool,
) -> (added: bool)
    ensures
        added == rows_can_take(
            row_models(old(rows)@),
            event@,
            place_of(event@, timezone@, grouping(*group_by, since, until, split_by_model)),
        ),
        added ==> row_models(final(rows)@) == rows_with(
            row_models(old(rows)@),
            event@,
            place_of(event@, timezone@, grouping(*group_by, since, until, split_by_model)),
        ),
        !added ==> final(rows)@ == old(rows)@,
        clock_shows_at(event.timestamp_unix_ms, timezone@),
{
    if let Some(date) = event_date(event.timestamp_unix_ms, timezone) {
        if date_in_window(&date, &since, &until) {
            let key = period_key(&date, group_by);
            let stored = row_storage_key(key.as_str(), event, split_by_model);
            if let Some(row) = rows.get(stored.as_str()) {
                if !row.usage.can_add(&event.usage) {
                    return false;
                }
                if let Some(totals) = row.models.get(event.model.as_str()) {
                    if !totals.usage.can_add(&event.usage) {
                        return false;
                    }
                }
            }
        }
    }
    accumulate_event(rows, event, timezone, group_by, since, until, split_by_model);
    true
}

/// The events of a row.
pub open spec fn of_row(zone: Seq<char>, grouping: Grouping, stored: Seq<char>) -> sums::EventTest {
    |event: EventModel|
        place_of(event, zone, grouping) matches Some(place) && place.storage_key == stored
}

/// A row of the report of some events: the period of its events, and their usage, in all and by
/// model.
pub open spec fn row_of(
    events: Seq<EventModel>,
    zone: Seq<char>,
    grouping: Grouping,
    stored: Seq<char>,
) -> RowModel {
    let keep = of_row(zone, grouping, stored);
    RowModel {
        key: place_of(sums::first_where(events, keep), zone, grouping)->0.key,
        usage: sums::usage_where(events, keep),
        models: sums::models_where(events, keep),
    }
}

/// The rows of the report of some events, by the keys that they are kept by: one for each period
/// that has an event, or for each period and model.
pub open spec fn report_of(events: Seq<EventModel>, zone: Seq<char>, grouping: Grouping) -> Map<
    Seq<char>,
    RowModel,
> {
    Map::new(
        |stored: Seq<char>| sums::any_where(events, of_row(zone, grouping, stored)),
        |stored: Seq<char>| row_of(events, zone, grouping, stored),
    )
}

/// Whether the counts of each row of a report are within 64 bits.
pub open spec fn report_fits(events: Seq<EventModel>, zone: Seq<char>, grouping: Grouping) -> bool {
    forall|stored: Seq<char>|
        (#[trigger] sums::usage_where(events, of_row(zone, grouping, stored))).fits()
}

/// One more event changes a report only in the row of its place.
pub proof fn lemma_report_pushed(
    events: Seq<EventModel>,
    event: EventModel,
    zone: Seq<char>,
    grouping: Grouping,
)
    ensures
        report_of(events.push(event), zone, grouping) == rows_with(
            report_of(events, zone, grouping),
            event,
            place_of(event, zone, grouping),
        ),
{
    let longer = events.push(event);
    let before = report_of(events, zone, grouping);
    let after = report_of(longer, zone, grouping);
    let place = place_of(event, zone, grouping);
    assert(longer.drop_last() =~= events);
    assert forall|stored: Seq<char>|
        #![trigger after.dom().contains(stored)]
        #![trigger after[stored]]
        ({
            let here = place matches Some(place) && place.storage_key == stored;
            &&& after.dom().contains(stored) == (before.dom().contains(stored) || here)
            &&& !here && before.dom().contains(stored) ==> after[stored] == before[stored]
            &&& here ==> after[stored] == row_with(row_at(before, place->0), event)
        }) by {
        let keep = of_row(zone, grouping, stored);
        sums::lemma_any_pushed(events, event, keep);
        sums::lemma_usage_pushed(events, event, keep);
        sums::lemma_models_pushed(events, event, keep);
        if !before.dom().contains(stored) {
            sums::lemma_none_used(events, keep);
            assert forall|model: Seq<char>| !(#[trigger] sums::any_where(events, sums::of_model(keep, model))) by {
                if sums::any_where(events, sums::of_model(keep, model)) {
                    let i = choose|i: int|
                        0 <= i < events.len() && sums::of_model(keep, model)(#[trigger] events[i]);
                    assert(keep(events[i]));
                }
            }
            assert(sums::models_where(events, keep) =~= Map::empty());
        } else {
            let i = choose|i: int| 0 <= i < events.len() && keep(#[trigger] events[i]);
            assert(events.len() > 0);
        }
    }
    match place {
        Some(place) => {
            assert(after =~= rows_with(before, event, Some(place)));
        },
        None => {
            assert(after =~= before);
        },
    }
}

/// The sessions of a list.
pub open spec fn session_models(sessions: Seq<SessionSummary>) -> Seq<SessionModel> {
    sessions.map_values(|session: SessionSummary| session@)
}

/// The events of all sessions, session after session.
pub open spec fn all_events(sessions: Seq<SessionModel>) -> Seq<EventModel>
    decreases sessions.len(),
{
    if sessions.len() == 0 {
        Seq::empty()
    } else {
        all_events(sessions.drop_last()) + sessions.last().events
    }
}

/// Whether the rows of a table are listed in the order of their keys.
pub open spec fn lists(
    rows: Seq<ReportRow>,
    table: Map<Seq<char>, RowModel>,
    keys: Seq<Seq<char>>,
) -> bool {
    &&& forall|i: int, j: int|
        0 <= i < j < keys.len() ==> text::precedes(#[trigger] keys[i], #[trigger] keys[j])
    &&& forall|key: Seq<char>| #[trigger] keys.contains(key) <==> table.dom().contains(key)
    &&& rows.len() == keys.len()
    &&& forall|i: int| 0 <= i < rows.len() ==> (#[trigger] rows[i])@ == table[keys[i]]
}

/// Whether the list holds exactly the rows of a table, in the order of their keys.
pub open spec fn lists_table(rows: Seq<ReportRow>, table: Map<Seq<char>, RowModel>) -> bool {
    exists|keys: Seq<Seq<char>>| lists(rows, table, keys)
}

/// An event can be added to the report of those before it exactly when the usage of its row stays
/// within 64 bits.
proof fn lemma_can_take(
    events: Seq<EventModel>,
    event: EventModel,
    zone: Seq<char>,
    grouping: Grouping,
)
    ensures
        rows_can_take(report_of(events, zone, grouping), event, place_of(event, zone, grouping))
            <==> (place_of(event, zone, grouping) matches Some(place) ==> sums::usage_where(
            events.push(event),
            of_row(zone, grouping, place.storage_key),
        ).fits()),
{
    if let Some(place) = place_of(event, zone, grouping) {
        let keep = of_row(zone, grouping, place.storage_key);
        let rows = report_of(events, zone, grouping);
        sums::lemma_usage_pushed(events, event, keep);
        if !rows.dom().contains(place.storage_key) {
            sums::lemma_none_used(events, keep);
        } else {
            let its = sums::of_model(keep, event.model);
            sums::lemma_usage_pushed(events, event, its);
            sums::lemma_usage_within(events.push(event), its, keep);
        }
    }
}

/// Where a report is within 64 bits, each event can be added in turn.
proof fn lemma_report_can_take(
    events: Seq<EventModel>,
    n: int,
    zone: Seq<char>,
    grouping: Grouping,
)
    requires
        0 <= n < events.len(),
    ensures
        report_fits(events, zone, grouping) ==> rows_can_take(
            report_of(events.take(n), zone, grouping),
            events[n],
            place_of(events[n], zone, grouping),
        ),
{
    lemma_can_take(events.take(n), events[n], zone, grouping);
    assert(events.take(n + 1) =~= events.take(n).push(events[n]));
    if let Some(place) = place_of(events[n], zone, grouping) {
        sums::lemma_usage_grows(events, n + 1, of_row(zone, grouping, place.storage_key));
    }
}

proof fn lemma_all_events_step(sessions: Seq<SessionModel>, i: int, j: int)
    requires
        0 <= i < sessions.len(),
        0 <= j <= sessions[i].events.len(),
    ensures
        all_events(sessions.take(i)).len() + sessions[i].events.len() <= all_events(
            sessions,
        ).len(),
        all_events(sessions).take(all_events(sessions.take(i)).len() + j) == all_events(
            sessions.take(i),
        ) + sessions[i].events.take(j),
        j < sessions[i].events.len() ==> all_events(sessions)[all_events(sessions.take(i)).len()
            + j] == sessions[i].events[j],
    decreases sessions.len(),
{
    let last = sessions.len() - 1;
    let shorter = sessions.drop_last();
    if i < last {
        lemma_all_events_step(shorter, i, j);
        assert(shorter.take(i) =~= sessions.take(i));
        assert(all_events(sessions).take(all_events(sessions.take(i)).len() + j) =~= all_events(
            shorter,
        ).take(all_events(sessions.take(i)).len() + j));
    } else {
        assert(sessions.take(i) =~= shorter);
        assert(all_events(sessions).take(all_events(shorter).len() + j) =~= all_events(shorter)
            + sessions[i].events.take(j));
    }
}

/// The usage of sessions by period: a row for each day or month that has an event, or for each of
/// them and each model, in the order of the periods and models.
pub fn aggregate_usage(
    sessions: &[SessionSummary],
    timezone: &Timezone,
    group_by: GroupBy,
    since: Option<CivilDate>,
    until: Option<CivilDate>,
    split_by_model: bool,
) -> (rows: Vec<ReportRow>)
    requires
        report_fits(
            all_events(session_models(sessions@)),
            timezone@,
            grouping(group_by, since, until, split_by_model),
        ),
    ensures
        lists_table(
            rows@,
            report_of(
                all_events(session_models(sessions@)),
                timezone@,
                grouping(group_by, since, until, split_by_model),
            ),
        ),
        clock_shows(all_events(session_models(sessions@)), timezone@),
{
    let ghost models = session_models(sessions@);
    let ghost events = all_events(models);
    let ghost way = grouping(group_by, since, until, split_by_model);
    let mut rows: TextMap<ReportRow> = TextMap::new();
    proof {
        lemma_empty_report(timezone@, way);
        assert(row_models(rows@) =~= Map::empty());
    }
    let mut i: usize = 0;
    while i < sessions.len()
        invariant
            i <= sessions@.len(),
            models == session_models(sessions@),
            events == all_events(models),
            way == grouping(group_by, since, until, split_by_model),
            report_fits(events, timezone@, way),
            row_models(rows@) == report_of(all_events(models.take(i as int)), timezone@, way),
            clock_shows(all_events(models.take(i as int)), timezone@),
        decreases sessions@.len() - i,
    {
        let session = &sessions[i];
        let ghost done = all_events(models.take(i as int));
        proof {
            assert(models[i as int] == session@);
            assert(session@.events.take(0) =~= Seq::<EventModel>::empty());
            assert(done + session@.events.take(0) =~= done);
        }
        let mut j: usize = 0;
        while j < session.events.len()
            invariant
                i < sessions@.len(),
                models == session_models(sessions@),
                models[i as int] == session@,
                events == all_events(models),
                way == grouping(group_by, since, until, split_by_model),
                report_fits(events, timezone@, way),
                done == all_events(models.take(i as int)),
                j <= session.events@.len(),
                clock_shows(done + session@.events.take(j as int), timezone@),
                row_models(rows@) == report_of(
                    done + session@.events.take(j as int),
                    timezone@,
                    way,
                ),
            decreases session.events@.len() - j,
        {
            let event = &session.events[j];
            proof {
                lemma_all_events_step(models, i as int, j as int);
                lemma_report_can_take(events, done.len() + j, timezone@, way);
                lemma_report_pushed(done + session@.events.take(j as int), event@, timezone@, way);
                assert(session@.events[j as int] == event@);
                assert((done + session@.events.take(j as int)).push(event@) =~= done
                    + session@.events.take(j + 1));
            }
            accumulate_event(
                &mut rows,
                event,
                timezone,
                &group_by,
                since,
                until,
                split_by_model,
            );
            j = j + 1;
        }
        proof {
            assert(session@.events.take(j as int) =~= session@.events);
            assert(models.take(i + 1).drop_last() =~= models.take(i as int));
        }
        i = i + 1;
    }
    proof {
        assert(models.take(i as int) =~= models);
    }
    listed(rows)
}

/// Adding an event keeps a report within 64 bits exactly when the event can be added.
proof fn lemma_fits_pushed(
    events: Seq<EventModel>,
    event: EventModel,
    zone: Seq<char>,
    grouping: Grouping,
)
    requires
        report_fits(events, zone, grouping),
        rows_can_take(report_of(events, zone, grouping), event, place_of(event, zone, grouping)),
    ensures
        report_fits(events.push(event), zone, grouping),
{
    lemma_can_take(events, event, zone, grouping);
    assert forall|stored: Seq<char>|
        (#[trigger] sums::usage_where(events.push(event), of_row(zone, grouping, stored))).fits() by {
        sums::lemma_usage_pushed(events, event, of_row(zone, grouping, stored));
        assert(sums::usage_where(events, of_row(zone, grouping, stored)).fits());
    }
}

/// Whether the counts of all events together are within 64 bits.
fn all_usage_fits(sessions: &[SessionSummary]) -> (fits: bool)
    ensures
        fits == sums::all_usage(all_events(session_models(sessions@))).fits(),
{
    let ghost models = session_models(sessions@);
    let ghost events = all_events(models);
    let mut usage = Usage::default();
    proof {
        assert(models.take(0) =~= Seq::<SessionModel>::empty());
    }
    let mut i: usize = 0;
    while i < sessions.len()
        invariant
            i <= sessions@.len(),
            models == session_models(sessions@),
            events == all_events(models),
            usage@ == sums::all_usage(all_events(models.take(i as int))),
        decreases sessions@.len() - i,
    {
        let session = &sessions[i];
        let ghost done = all_events(models.take(i as int));
        proof {
            assert(models[i as int] == session@);
            assert(done + session@.events.take(0) =~= done);
        }
        let mut j: usize = 0;
        while j < session.events.len()
            invariant
                i < sessions@.len(),
                models == session_models(sessions@),
                models[i as int] == session@,
                events == all_events(models),
                done == all_events(models.take(i as int)),
                j <= session.events@.len(),
                usage@ == sums::all_usage(done + session@.events.take(j as int)),
            decreases session.events@.len() - j,
        {
            let event = &session.events[j];
            let ghost seen = done + session@.events.take(j as int);
            proof {
                assert(session@.events[j as int] == event@);
                assert(seen.push(event@) =~= done + session@.events.take(j + 1));
                sums::lemma_usage_pushed(seen, event@, sums::every());
                lemma_all_events_step(models, i as int, j + 1);
                sums::lemma_usage_grows(events, done.len() + j + 1, sums::every());
            }
            if !usage.can_add(&event.usage) {
                return false;
            }
            usage.add_assign(&event.usage);
            j = j + 1;
        }
        proof {
            assert(session@.events.take(j as int) =~= session@.events);
            assert(models.take(i + 1).drop_last() =~= models.take(i as int));
        }
        i = i + 1;
    }
    proof {
        assert(models.take(i as int) =~= models);
    }
    true
}

/// Where the counts of all events together are within 64 bits, so are those of each row.
pub(crate) proof fn lemma_all_fit(events: Seq<EventModel>, zone: Seq<char>, grouping: Grouping)
    requires
        sums::all_usage(events).fits(),
    ensures
        report_fits(events, zone, grouping),
{
    assert forall|stored: Seq<char>|
        (#[trigger] sums::usage_where(events, of_row(zone, grouping, stored))).fits() by {
        sums::lemma_usage_within(events, of_row(zone, grouping, stored), sums::every());
    }
}

/// The usage of sessions by period, where the counts of each row are within 64 bits.
pub fn try_aggregate_usage(
    sessions: &[SessionSummary],
    timezone: &Timezone,
    group_by: GroupBy,
    since: Option<CivilDate>,
    until: Option<CivilDate>,
    split_by_model: bool,
) -> (rows: Option<Vec<ReportRow>>)
    ensures
        rows is Some <==> report_fits(
            all_events(session_models(sessions@)),
            timezone@,
            grouping(group_by, since, until, split_by_model),
        ),
        rows matches Some(rows) ==> lists_table(
            rows@,
            report_of(
                all_events(session_models(sessions@)),
                timezone@,
                grouping(group_by, since, until, split_by_model),
            ),
        ),
        rows is Some ==> clock_shows(all_events(session_models(sessions@)), timezone@),
{
    let ghost models = session_models(sessions@);
    let ghost events = all_events(models);
    let ghost way = grouping(group_by, since, until, split_by_model);
    // Where the sum of everything is small enough, no row has to be watched.
    if all_usage_fits(sessions) {
        proof {
            lemma_all_fit(events, timezone@, way);
        }
        return Some(aggregate_usage(sessions, timezone, group_by, since, until, split_by_model));
    }
    let mut rows: TextMap<ReportRow> = TextMap::new();
    proof {
        lemma_empty_report(timezone@, way);
        assert(row_models(rows@) =~= Map::empty());
    }
    let mut i: usize = 0;
    while i < sessions.len()
        invariant
            i <= sessions@.len(),
            models == session_models(sessions@),
            events == all_events(models),
            way == grouping(group_by, since, until, split_by_model),
            report_fits(all_events(models.take(i as int)), timezone@, way),
            row_models(rows@) == report_of(all_events(models.take(i as int)), timezone@, way),
            clock_shows(all_events(models.take(i as int)), timezone@),
        decreases sessions@.len() - i,
    {
        let session = &sessions[i];
        let ghost done = all_events(models.take(i as int));
        proof {
            assert(models[i as int] == session@);
            assert(session@.events.take(0) =~= Seq::<EventModel>::empty());
            assert(done + session@.events.take(0) =~= done);
        }
        let mut j: usize = 0;
        while j < session.events.len()
            invariant
                i < sessions@.len(),
                models == session_models(sessions@),
                models[i as int] == session@,
                events == all_events(models),
                way == grouping(group_by, since, until, split_by_model),
                done == all_events(models.take(i as int)),
                j <= session.events@.len(),
                report_fits(done + session@.events.take(j as int), timezone@, way),
                clock_shows(done + session@.events.take(j as int), timezone@),
                row_models(rows@) == report_of(
                    done + session@.events.take(j as int),
                    timezone@,
                    way,
                ),
            decreases session.events@.len() - j,
        {
            let event = &session.events[j];
            let ghost seen = done + session@.events.take(j as int);
            proof {
                lemma_all_events_step(models, i as int, j as int);
                lemma_report_can_take(events, done.len() + j, timezone@, way);
                lemma_report_pushed(seen, event@, timezone@, way);
                assert(session@.events[j as int] == event@);
                assert(seen.push(event@) =~= done + session@.events.take(j + 1));
            }
            let added = try_accumulate_event(
                &mut rows,
                event,
                timezone,
                &group_by,
                since,
                until,
                split_by_model,
            );
            if !added {
                return None;
            }
            proof {
                lemma_fits_pushed(seen, event@, timezone@, way);
            }
            j = j + 1;
        }
        proof {
            assert(session@.events.take(j as int) =~= session@.events);
            assert(models.take(i + 1).drop_last() =~= models.take(i as int));
        }
        i = i + 1;
    }
    proof {
        assert(models.take(i as int) =~= models);
    }
    Some(listed(rows))
}

/// Without events there are no rows.
pub(crate) proof fn lemma_empty_report(zone: Seq<char>, grouping: Grouping)
    ensures
        report_of(Seq::empty(), zone, grouping) == Map::<Seq<char>, RowModel>::empty(),
        all_events(Seq::empty()) == Seq::<EventModel>::empty(),
{
    assert(report_of(Seq::empty(), zone, grouping) =~= Map::<Seq<char>, RowModel>::empty());
}

/// The rows of a table in the order of their keys.
pub(crate) fn listed(rows: TextMap<ReportRow>) -> (list: Vec<ReportRow>)
    ensures
        lists_table(list@, row_models(rows@)),
{
    let ghost entries = rows.entries();
    let ghost table = row_models(rows@);
    let list = rows.into_values();
    proof {
        let keys = Seq::new(entries.len(), |i: int| entries[i].0);
        assert forall|key: Seq<char>| #[trigger] keys.contains(key) <==> table.dom().contains(
            key,
        ) by {
            if keys.contains(key) {
                let i = choose|i: int| 0 <= i < keys.len() && keys[i] == key;
                text_map::lemma_entry_in_map(entries, i);
            }
            if table.dom().contains(key) {
                let i = text_map::key_index(entries, key);
                assert(keys[i] == key);
            }
        }
        assert forall|i: int| 0 <= i < list@.len() implies (#[trigger] list@[i])@
            == table[keys[i]] by {
            text_map::lemma_entry_in_map(entries, i);
        }
        assert(lists(list@, table, keys));
    }
    list
}

} // verus!
