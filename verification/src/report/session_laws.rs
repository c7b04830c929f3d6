//! What each row of a report by session tells, and what each event adds to a row.

use crate::calendar;
use crate::calendar::{CivilDate, Timezone};
use crate::cli;
use crate::cli::{Command, Report};
use crate::ordering;
use crate::ordering::Ranked;
use crate::report;
use crate::report::laws;
use crate::report::row_laws;
use crate::report::sessions;
use crate::report::sessions::{SessionRow, SessionTally};
use crate::report::sums;
use crate::report::GroupBy;
use crate::text;
use crate::text_map::TextMap;
use crate::types;
use crate::types::{EventModel, ModelTotals, ReportRow, SessionModel, SessionSummary, Usage, UsageEvent};
use vstd::prelude::*;

verus! {

/// Whether an event is within the window: a clock in the zone shows a day of it.
pub open spec fn is_within(
    event: EventModel,
    zone: Seq<char>,
    since: Option<CivilDate>,
    until: Option<CivilDate>,
) -> bool {
    &&& calendar::zone_clock(event.timestamp_unix_ms, zone) matches Some(time)
    &&& since matches Some(start) ==> !row_laws::comes_before(time.date, start)
    &&& until matches Some(end) ==> !row_laws::comes_before(end, time.date)
}

/// Whether a row tells of a session: of its name, the file of its log and the directory that it
/// worked in, of the latest of its events within the window, and of what these used.
pub open spec fn tells_of_session(
    row: SessionRow,
    session: SessionSummary,
    zone: Seq<char>,
    since: Option<CivilDate>,
    until: Option<CivilDate>,
) -> bool {
    let events = types::event_models(session.events@);
    let keep = |event: EventModel| is_within(event, zone, since, until);
    &&& row.session_id@ == session.session_id@
    &&& row.session_file@ == text::without_suffixes(
        text::last_segment(session.session_path@),
        ".jsonl"@,
    )
    &&& session.directory matches Some(directory) ==> row.directory@ == directory@
    &&& session.directory is None ==> row.directory@ == "-"@
    &&& exists|n: int|
        0 <= n < events.len() && keep(#[trigger] events[n]) && events[n].timestamp_unix_ms
            == row.last_activity_unix_ms
    &&& forall|n: int|
        0 <= n < events.len() && keep(#[trigger] events[n]) ==> events[n].timestamp_unix_ms
            <= row.last_activity_unix_ms
    &&& calendar::zone_clock(row.last_activity_unix_ms, zone) matches Some(time)
    &&& row.date_key@ == calendar::date_text(time.date)
    &&& row_laws::is_sum(row.usage, events, keep)
    &&& row_laws::are_totals(row.models, events, keep)
}

/// Whether a session has an event within the window.
pub open spec fn is_active(
    session: SessionSummary,
    zone: Seq<char>,
    since: Option<CivilDate>,
    until: Option<CivilDate>,
) -> bool {
    let events = types::event_models(session.events@);
    exists|n: int| 0 <= n < events.len() && is_within(#[trigger] events[n], zone, since, until)
}

/// The number of sessions that have an event within the window.
pub open spec fn active_sessions(
    sessions: Seq<SessionSummary>,
    zone: Seq<char>,
    since: Option<CivilDate>,
    until: Option<CivilDate>,
) -> nat
    decreases sessions.len(),
{
    if sessions.len() == 0 {
        0
    } else {
        active_sessions(sessions.drop_last(), zone, since, until) + if is_active(
            sessions.last(),
            zone,
            since,
            until,
        ) {
            1nat
        } else {
            0nat
        }
    }
}

proof fn lemma_row_tells(
    row: SessionRow,
    session: SessionSummary,
    zone: Seq<char>,
    since: Option<CivilDate>,
    until: Option<CivilDate>,
)
    requires
        sessions::row_of_session(session@, zone, since, until) == Some(row@),
    ensures
        tells_of_session(row, session, zone, since, until),
{
    let events = types::event_models(session.events@);
    let its = sessions::of_window(zone, since, until);
    let keep = |event: EventModel| is_within(event, zone, since, until);
    assert forall|n: int| 0 <= n < events.len() implies its(#[trigger] events[n]) == keep(
        events[n],
    ) by {}
    laws::lemma_latest_is_last(events, its);
    let n = choose|n: int|
        0 <= n < events.len() && its(#[trigger] events[n]) && events[n].timestamp_unix_ms
            == row.last_activity_unix_ms;
    assert(keep(events[n]));
    laws::lemma_same_events_same_usage(events, its, keep);
    row_laws::lemma_is_sum(events, keep);
    crate::report::part_laws::lemma_same_models(events, its, keep);
    row_laws::lemma_are_totals(row.models, events, keep);
}

proof fn lemma_row_of_active(
    session: SessionSummary,
    zone: Seq<char>,
    since: Option<CivilDate>,
    until: Option<CivilDate>,
)
    ensures
        sessions::row_of_session(session@, zone, since, until) is Some <==> is_active(
            session,
            zone,
            since,
            until,
        ),
{
    let events = types::event_models(session.events@);
    let its = sessions::of_window(zone, since, until);
    laws::lemma_latest_is_last(events, its);
    if sums::any_where(events, its) {
        let n = choose|n: int| 0 <= n < events.len() && its(#[trigger] events[n]);
        assert(is_within(events[n], zone, since, until));
    }
    if is_active(session, zone, since, until) {
        let n = choose|n: int|
            0 <= n < events.len() && is_within(#[trigger] events[n], zone, since, until);
        assert(its(events[n]));
    }
}

proof fn lemma_number_of_rows(
    all: Seq<SessionSummary>,
    zone: Seq<char>,
    since: Option<CivilDate>,
    until: Option<CivilDate>,
)
    ensures
        sessions::rows_of_sessions(report::session_models(all), zone, since, until).len()
            == active_sessions(all, zone, since, until),
    decreases all.len(),
{
    if all.len() > 0 {
        lemma_number_of_rows(all.drop_last(), zone, since, until);
        lemma_row_of_active(all.last(), zone, since, until);
        assert(report::session_models(all).drop_last() =~= report::session_models(all.drop_last()));
    }
}

proof fn lemma_rows_in_turn(
    all: Seq<SessionModel>,
    zone: Seq<char>,
    since: Option<CivilDate>,
    until: Option<CivilDate>,
)
    ensures
        ({
            let rows = sessions::rows_of_sessions(all, zone, since, until);
            &&& forall|k: int|
                0 <= k < all.len() && sessions::row_of_session(#[trigger] all[k], zone, since, until)
                    is Some ==> exists|i: int|
                    0 <= i < rows.len() && Some(#[trigger] rows[i]) == sessions::row_of_session(
                        all[k],
                        zone,
                        since,
                        until,
                    )
            &&& forall|i: int|
                0 <= i < rows.len() ==> exists|k: int|
                    0 <= k < all.len() && Some(#[trigger] rows[i]) == sessions::row_of_session(
                        #[trigger] all[k],
                        zone,
                        since,
                        until,
                    )
        }),
    decreases all.len(),
{
    let rows = sessions::rows_of_sessions(all, zone, since, until);
    if all.len() > 0 {
        let fewer = all.drop_last();
        let last = all.len() - 1;
        let before = sessions::rows_of_sessions(fewer, zone, since, until);
        lemma_rows_in_turn(fewer, zone, since, until);
        assert forall|k: int|
            0 <= k < all.len() && sessions::row_of_session(#[trigger] all[k], zone, since, until)
                is Some implies exists|i: int|
            0 <= i < rows.len() && Some(#[trigger] rows[i]) == sessions::row_of_session(
                all[k],
                zone,
                since,
                until,
            ) by {
            if k < last {
                assert(fewer[k] == all[k]);
                let i = choose|i: int|
                    0 <= i < before.len() && Some(#[trigger] before[i])
                        == sessions::row_of_session(fewer[k], zone, since, until);
                assert(rows[i] == before[i]);
            } else {
                assert(rows[rows.len() - 1] == rows.last());
            }
        }
        assert forall|i: int| 0 <= i < rows.len() implies exists|k: int|
            0 <= k < all.len() && Some(#[trigger] rows[i]) == sessions::row_of_session(
                #[trigger] all[k],
                zone,
                since,
                until,
            ) by {
            if i < before.len() {
                assert(rows[i] == before[i]);
                let k = choose|k: int|
                    0 <= k < fewer.len() && Some(before[i]) == sessions::row_of_session(
                        #[trigger] fewer[k],
                        zone,
                        since,
                        until,
                    );
                assert(all[k] == fewer[k]);
            } else {
                assert(Some(rows[i]) == sessions::row_of_session(all[last], zone, since, until));
            }
        }
    }
}

proof fn lemma_same_member(a: Seq<SessionRow>, b: Seq<SessionRow>, i: int)
    requires
        a.to_multiset() == b.to_multiset(),
        0 <= i < a.len(),
    ensures
        exists|j: int| 0 <= j < b.len() && b[j] == a[i],
{
    broadcast use vstd::seq_lib::group_to_multiset_ensures;

    assert(a.contains(a[i]));
    assert(a.to_multiset().count(a[i]) > 0);
    assert(b.contains(a[i]));
}

/// Whether rows are the report by session that was asked for.
pub open spec fn is_session_report(
    rows: Vec<SessionRow>,
    sessions: &[SessionSummary],
    timezone: &Timezone,
    since: Option<CivilDate>,
    until: Option<CivilDate>,
) -> bool {
    ||| call_ensures(sessions::aggregate_sessions, (sessions, timezone, since, until), rows)
    ||| call_ensures(
        sessions::try_aggregate_sessions,
        (sessions, timezone, since, until),
        Some(rows),
    )
    ||| call_ensures(
        cli::make_report,
        (Some(Command::Sessions), sessions, timezone, since, until, false),
        Some(Report::Sessions(rows)),
    )
    ||| call_ensures(
        cli::make_report,
        (Some(Command::Sessions), sessions, timezone, since, until, true),
        Some(Report::Sessions(rows)),
    )
}

/// Each session with an event within the window has a row, and no other has: every row tells of one,
/// and there are as many. The session that was active last comes first, and of those that were
/// active at one instant the one whose file comes first.
pub proof fn lemma_rows_tell_of_their_sessions(
    sessions: &[SessionSummary],
    timezone: &Timezone,
    since: Option<CivilDate>,
    until: Option<CivilDate>,
    rows: Vec<SessionRow>,
)
    requires
        is_session_report(rows, sessions, timezone, since, until),
    ensures
        rows@.len() == active_sessions(sessions@, timezone@, since, until),
        forall|k: int|
            0 <= k < sessions@.len() && is_active(
                #[trigger] sessions@[k],
                timezone@,
                since,
                until,
            ) ==> exists|i: int|
                0 <= i < rows@.len() && tells_of_session(
                    #[trigger] rows@[i],
                    sessions@[k],
                    timezone@,
                    since,
                    until,
                ),
        forall|i: int|
            0 <= i < rows@.len() ==> exists|k: int|
                0 <= k < sessions@.len() && tells_of_session(
                    #[trigger] rows@[i],
                    #[trigger] sessions@[k],
                    timezone@,
                    since,
                    until,
                ),
        forall|i: int, j: int|
            0 <= i < j < rows@.len() ==> {
                let (a, b) = (#[trigger] rows@[i], #[trigger] rows@[j]);
                ||| a.last_activity_unix_ms > b.last_activity_unix_ms
                ||| a.last_activity_unix_ms == b.last_activity_unix_ms && (a.session_file@
                    == b.session_file@ || text::precedes(a.session_file@, b.session_file@))
            },
{
    broadcast use vstd::seq_lib::group_to_multiset_ensures;

    let zone = timezone@;
    let models = sessions::rows_of_sessions(
        report::session_models(sessions@),
        zone,
        since,
        until,
    );
    let found = choose|found: Seq<SessionRow>|
        sessions::session_row_models(found) == models && #[trigger] ordering::is_stable_sort(
            rows@,
            found,
        );
    let all = report::session_models(sessions@);
    lemma_rows_in_turn(all, zone, since, until);
    lemma_number_of_rows(sessions@, zone, since, until);
    assert(models.len() == found.len());
    assert(rows@.to_multiset().len() == found.to_multiset().len());
    assert forall|k: int|
        0 <= k < sessions@.len() && is_active(
            #[trigger] sessions@[k],
            zone,
            since,
            until,
        ) implies exists|i: int|
        0 <= i < rows@.len() && tells_of_session(
            #[trigger] rows@[i],
            sessions@[k],
            zone,
            since,
            until,
        ) by {
        lemma_row_of_active(sessions@[k], zone, since, until);
        assert(all[k] == sessions@[k]@);
        let i = choose|i: int|
            0 <= i < models.len() && Some(#[trigger] models[i]) == sessions::row_of_session(
                all[k],
                zone,
                since,
                until,
            );
        assert(models[i] == found[i]@);
        lemma_same_member(found, rows@, i);
        let j = choose|j: int| 0 <= j < rows@.len() && rows@[j] == found[i];
        lemma_row_tells(rows@[j], sessions@[k], zone, since, until);
    }
    assert forall|i: int| 0 <= i < rows@.len() implies exists|k: int|
        0 <= k < sessions@.len() && tells_of_session(
            #[trigger] rows@[i],
            #[trigger] sessions@[k],
            zone,
            since,
            until,
        ) by {
        lemma_same_member(rows@, found, i);
        let j = choose|j: int| 0 <= j < found.len() && found[j] == rows@[i];
        assert(models[j] == found[j]@);
        let k = choose|k: int|
            0 <= k < all.len() && Some(models[j]) == sessions::row_of_session(
                #[trigger] all[k],
                zone,
                since,
                until,
            );
        assert(all[k] == sessions@[k]@);
        lemma_row_tells(rows@[i], sessions@[k], zone, since, until);
    }
    assert forall|i: int, j: int| 0 <= i < j < rows@.len() implies {
        let (a, b) = (#[trigger] rows@[i], #[trigger] rows@[j]);
        ||| a.last_activity_unix_ms > b.last_activity_unix_ms
        ||| a.last_activity_unix_ms == b.last_activity_unix_ms && (a.session_file@
            == b.session_file@ || text::precedes(a.session_file@, b.session_file@))
    } by {
        assert(rows@[i].ranks_up_to(rows@[j]));
        text::lemma_precedes_total(rows@[i].session_file@, rows@[j].session_file@);
    }
}

/// Whether a usage is that before and another more, count by count.
pub open spec fn is_more_by(after: Usage, before: Usage, by: Usage) -> bool {
    &&& after.input_tokens == before.input_tokens + by.input_tokens
    &&& after.cached_input_tokens == before.cached_input_tokens + by.cached_input_tokens
    &&& after.output_tokens == before.output_tokens + by.output_tokens
    &&& after.reasoning_output_tokens == before.reasoning_output_tokens
        + by.reasoning_output_tokens
    &&& after.total_tokens == before.total_tokens + by.total_tokens
}

/// Whether totals are those before and an event more: the event adds to its own model's alone, and a
/// model that was assumed once stays assumed.
pub open spec fn have_one_more(
    after: Map<Seq<char>, ModelTotals>,
    before: Map<Seq<char>, ModelTotals>,
    event: UsageEvent,
) -> bool {
    let model = event.model@;
    &&& after.dom() =~= before.dom().insert(model)
    &&& forall|other: Seq<char>| #[trigger]
        before.dom().contains(other) && other != model ==> after[other] == before[other]
    &&& before.dom().contains(model) ==> is_more_by(
        after[model].usage,
        before[model].usage,
        event.usage,
    ) && after[model].is_fallback == (before[model].is_fallback || event.is_fallback_model)
    &&& !before.dom().contains(model) ==> after[model].usage == event.usage
        && after[model].is_fallback == event.is_fallback_model
}

proof fn lemma_one_more(
    after: Map<Seq<char>, ModelTotals>,
    before: Map<Seq<char>, ModelTotals>,
    event: UsageEvent,
)
    requires
        types::totals_by_model(after) == sums::models_with(types::totals_by_model(before), event@),
    ensures
        have_one_more(after, before, event),
{
    let (a, b) = (types::totals_by_model(after), types::totals_by_model(before));
    let model = event.model@;
    assert(a.dom() =~= after.dom());
    assert(b.dom() =~= before.dom());
    assert(after.dom() =~= before.dom().insert(model));
    assert forall|other: Seq<char>| #[trigger]
        before.dom().contains(other) && other != model implies after[other] == before[other] by {
        assert(after.dom().contains(other));
        assert(a[other] == b[other]);
        assert(after[other]@ == before[other]@);
    }
    assert(after.dom().contains(model));
    assert(after[model]@ == a[model]);
    if before.dom().contains(model) {
        assert(before[model]@ == b[model]);
    }
}

/// An event that is counted adds its usage, in all and to its model, and is the latest where it comes
/// after the latest before; one that has no day or whose day is not of the window changes nothing.
pub proof fn lemma_event_adds_to_a_session(
    tally: &mut SessionTally,
    event: &UsageEvent,
    date: Option<CivilDate>,
    since: Option<CivilDate>,
    until: Option<CivilDate>,
    inside: bool,
)
    requires
        call_ensures(SessionTally::count_at, (tally, event, date, since, until), ()),
        date matches Some(date) ==> call_ensures(
            report::date_in_window,
            (&date, &since, &until),
            inside,
        ),
    ensures
        date is None || !inside ==> final(tally)@ == old(tally)@,
        date matches Some(date) ==> (inside ==> {
            &&& is_more_by(final(tally).usage, old(tally).usage, event.usage)
            &&& have_one_more(final(tally).models@, old(tally).models@, *event)
            &&& final(tally).latest matches Some(now)
            &&& old(tally).latest matches Some(before) ==> if event.timestamp_unix_ms
                > before.unix_ms {
                now.unix_ms == event.timestamp_unix_ms && now.date == date
            } else {
                now == before
            }
            &&& old(tally).latest is None ==> now.unix_ms == event.timestamp_unix_ms && now.date
                == date
        }),
{
    if date is Some && inside {
        lemma_one_more(final(tally).models@, old(tally).models@, *event);
    }
}

/// Before any event, nothing is counted of a session.
pub proof fn lemma_tally_starts_from_nothing(tally: SessionTally)
    requires
        call_ensures(SessionTally::new, (), tally),
    ensures
        tally.usage.input_tokens == 0,
        tally.usage.cached_input_tokens == 0,
        tally.usage.output_tokens == 0,
        tally.usage.reasoning_output_tokens == 0,
        tally.usage.total_tokens == 0,
        tally.models@.dom() =~= Set::<Seq<char>>::empty(),
        tally.latest is None,
{
    assert(tally.models@.dom() =~= types::totals_by_model(tally.models@).dom());
}

/// A row of a session tells what was counted of it, and there is one exactly where anything was.
pub proof fn lemma_row_of_a_tally(
    session: &SessionSummary,
    tally: SessionTally,
    row: Option<SessionRow>,
)
    requires
        call_ensures(sessions::session_row, (session, tally), row),
    ensures
        row is Some <==> tally.latest is Some,
        row matches Some(row) ==> (tally.latest matches Some(latest) && {
            &&& row.session_id@ == session.session_id@
            &&& row.session_file@ == text::without_suffixes(
                text::last_segment(session.session_path@),
                ".jsonl"@,
            )
            &&& session.directory matches Some(directory) ==> row.directory@ == directory@
            &&& session.directory is None ==> row.directory@ == "-"@
            &&& row.last_activity_unix_ms == latest.unix_ms
            &&& row.date_key@ == calendar::date_text(latest.date)
            &&& row.usage == tally.usage
            &&& types::totals_by_model(row.models@) == types::totals_by_model(tally.models@)
        }),
{
}

/// What is counted of events is the sum of those within the window, in all and by model, and the
/// latest of them with its day.
pub proof fn lemma_tally_of_events(
    events: &Vec<UsageEvent>,
    timezone: &Timezone,
    since: Option<CivilDate>,
    until: Option<CivilDate>,
    tally: SessionTally,
)
    requires
        call_ensures(sessions::tally_events, (events, timezone, since, until), tally),
    ensures
        ({
            let all = types::event_models(events@);
            let keep = |event: EventModel| is_within(event, timezone@, since, until);
            &&& row_laws::is_sum(tally.usage, all, keep)
            &&& row_laws::are_totals(tally.models, all, keep)
            &&& tally.latest is Some <==> exists|n: int|
                0 <= n < all.len() && keep(#[trigger] all[n])
            &&& tally.latest matches Some(latest) ==> {
                &&& exists|n: int|
                    0 <= n < all.len() && keep(#[trigger] all[n]) && all[n].timestamp_unix_ms
                        == latest.unix_ms
                &&& forall|n: int|
                    0 <= n < all.len() && keep(#[trigger] all[n]) ==> all[n].timestamp_unix_ms
                        <= latest.unix_ms
                &&& calendar::zone_clock(latest.unix_ms, timezone@) matches Some(time)
                &&& latest.date == time.date
            }
        }),
{
    let all = types::event_models(events@);
    let its = sessions::of_window(timezone@, since, until);
    let keep = |event: EventModel| is_within(event, timezone@, since, until);
    assert forall|n: int| 0 <= n < all.len() implies its(#[trigger] all[n]) == keep(all[n]) by {}
    laws::lemma_latest_is_last(all, its);
    laws::lemma_same_events_same_usage(all, its, keep);
    row_laws::lemma_is_sum(all, keep);
    crate::report::part_laws::lemma_same_models(all, its, keep);
    row_laws::lemma_are_totals(tally.models, all, keep);
    if let Some(latest) = tally.latest {
        let n = choose|n: int|
            0 <= n < all.len() && its(#[trigger] all[n]) && all[n].timestamp_unix_ms
                == latest.unix_ms;
        assert(keep(all[n]));
    }
}

/// An event adds to one row of a report, that of its period, or of its period and model, and starts
/// the row where there is none; the other rows stay as they are. One that has no day or whose day is
/// not of the window changes nothing.
pub proof fn lemma_event_adds_to_its_row(
    rows: &mut TextMap<ReportRow>,
    event: &UsageEvent,
    timezone: &Timezone,
    group_by: &GroupBy,
    since: Option<CivilDate>,
    until: Option<CivilDate>,
    split_by_model: bool,
    date: Option<CivilDate>,
    inside: bool,
    key: &str,
    stored: String,
)
    requires
        call_ensures(
            report::accumulate_at,
            (rows, event, date, group_by, since, until, split_by_model),
            (),
        ) || call_ensures(report::event_date, (event.timestamp_unix_ms, timezone), date) && (
        call_ensures(
            report::accumulate_event,
            (rows, event, timezone, group_by, since, until, split_by_model),
            (),
        ) || call_ensures(
            report::try_accumulate_event,
            (rows, event, timezone, group_by, since, until, split_by_model),
            true,
        )),
        date matches Some(date) ==> call_ensures(
            report::date_in_window,
            (&date, &since, &until),
            inside,
        ) && key@ == row_laws::text_of_period(date, *group_by),
        call_ensures(report::row_storage_key, (key, event, split_by_model), stored),
    ensures
        date is None || !inside ==> report::row_models(final(rows)@) == report::row_models(
            old(rows)@,
        ),
        date is Some && inside ==> {
            let (before, after) = (old(rows)@, final(rows)@);
            &&& after.dom() =~= before.dom().insert(stored@)
            &&& forall|other: Seq<char>| #[trigger]
                before.dom().contains(other) && other != stored@ ==> after[other]@
                    == before[other]@
            &&& before.dom().contains(stored@) ==> after[stored@].key@ == before[stored@].key@
                && is_more_by(after[stored@].usage, before[stored@].usage, event.usage)
                && have_one_more(after[stored@].models@, before[stored@].models@, *event)
            &&& !before.dom().contains(stored@) ==> after[stored@].key@ == key@
                && after[stored@].usage == event.usage && have_one_more(
                after[stored@].models@,
                Map::empty(),
                *event,
            )
        },
{
    let (before, after) = (old(rows)@, final(rows)@);
    let (b, a) = (report::row_models(before), report::row_models(after));
    assert(b.dom() =~= before.dom());
    assert(a.dom() =~= after.dom());
    if date is Some && inside {
        assert(after.dom().contains(stored@));
        assert(after[stored@]@ == a[stored@]);
        assert forall|other: Seq<char>| #[trigger]
            before.dom().contains(other) && other != stored@ implies after[other]@
            == before[other]@ by {
            assert(after.dom().contains(other));
            assert(a[other] == b[other]);
        }
        if before.dom().contains(stored@) {
            assert(before[stored@]@ == b[stored@]);
            lemma_one_more(after[stored@].models@, before[stored@].models@, *event);
        } else {
            assert(types::totals_by_model(Map::<Seq<char>, ModelTotals>::empty()) =~= Map::empty());
            lemma_one_more(after[stored@].models@, Map::empty(), *event);
        }
    }
}

/// An event is left out, and nothing changed, only where a sum would be no number of 64 bits.
pub proof fn lemma_event_that_does_not_fit(
    rows: &mut TextMap<ReportRow>,
    event: &UsageEvent,
    timezone: &Timezone,
    group_by: &GroupBy,
    since: Option<CivilDate>,
    until: Option<CivilDate>,
    split_by_model: bool,
)
    requires
        call_ensures(
            report::try_accumulate_event,
            (rows, event, timezone, group_by, since, until, split_by_model),
            false,
        ),
    ensures
        final(rows)@ == old(rows)@,
        exists|stored: Seq<char>| #[trigger]
            old(rows)@.dom().contains(stored) && cannot_take(old(rows)@[stored], *event),
{
    let place = report::place_of(
        event@,
        timezone@,
        report::grouping(*group_by, since, until, split_by_model),
    )->0;
    let before = report::row_models(old(rows)@);
    assert(old(rows)@.dom().contains(place.storage_key));
    let row = old(rows)@[place.storage_key];
    assert(before[place.storage_key] == row@);
    let model = event.model@;
    assert(row@.models.dom().contains(model) == row.models@.dom().contains(model));
}

/// Whether a row has no room for an event, in all or under the event's model.
pub open spec fn cannot_take(row: ReportRow, event: UsageEvent) -> bool {
    ||| is_too_much(row.usage, event.usage)
    ||| row.models@.dom().contains(event.model@) && is_too_much(
        row.models@[event.model@].usage,
        event.usage,
    )
}

/// Whether a sum of two usages has a count that is no number of 64 bits.
pub open spec fn is_too_much(a: Usage, b: Usage) -> bool {
    ||| a.input_tokens + b.input_tokens > u64::MAX
    ||| a.cached_input_tokens + b.cached_input_tokens > u64::MAX
    ||| a.output_tokens + b.output_tokens > u64::MAX
    ||| a.reasoning_output_tokens + b.reasoning_output_tokens > u64::MAX
    ||| a.total_tokens + b.total_tokens > u64::MAX
}

/// There is a report by session exactly where every sum of every session is a number of 64 bits.
pub proof fn lemma_session_reports_that_can_be_made(
    sessions: &[SessionSummary],
    timezone: &Timezone,
    since: Option<CivilDate>,
    until: Option<CivilDate>,
    rows: Option<Vec<SessionRow>>,
)
    requires
        call_ensures(sessions::try_aggregate_sessions, (sessions, timezone, since, until), rows),
    ensures
        rows is Some <==> forall|k: int|
            0 <= k < sessions@.len() ==> row_laws::sums_fit(
                types::event_models((#[trigger] sessions@[k]).events@),
                |event: EventModel| is_within(event, timezone@, since, until),
            ),
{
    let models = report::session_models(sessions@);
    assert forall|k: int| 0 <= k < sessions@.len() implies sessions::session_fits(
        models[k],
        timezone@,
        since,
        until,
    ) == row_laws::sums_fit(
        types::event_models((#[trigger] sessions@[k]).events@),
        |event: EventModel| is_within(event, timezone@, since, until),
    ) by {
        let events = types::event_models(sessions@[k].events@);
        let its = sessions::of_window(timezone@, since, until);
        let keep = |event: EventModel| is_within(event, timezone@, since, until);
        assert forall|n: int| 0 <= n < events.len() implies its(#[trigger] events[n]) == keep(
            events[n],
        ) by {}
        laws::lemma_same_events_same_usage(events, its, keep);
        row_laws::lemma_is_sum(events, keep);
    }
    if rows is Some {
        assert forall|k: int| 0 <= k < sessions@.len() implies row_laws::sums_fit(
            types::event_models((#[trigger] sessions@[k]).events@),
            |event: EventModel| is_within(event, timezone@, since, until),
        ) by {
            assert(sessions::session_fits(models[k], timezone@, since, until));
        }
    }
    if forall|k: int|
        0 <= k < sessions@.len() ==> row_laws::sums_fit(
            types::event_models((#[trigger] sessions@[k]).events@),
            |event: EventModel| is_within(event, timezone@, since, until),
        ) {
        assert forall|k: int| 0 <= k < models.len() implies sessions::session_fits(
            #[trigger] models[k],
            timezone@,
            since,
            until,
        ) by {
            assert(models[k] == sessions@[k]@);
        }
    }
}

} // verus!
