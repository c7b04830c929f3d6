//! How arguments are read, which report they ask for, and what is said of doubtful histories.

use crate::calendar;
use crate::calendar::{CivilDate, Timezone};
use crate::cli;
use crate::cli::diagnostics;
use crate::cli::diagnostics::{Diagnostics, SessionHistory};
use crate::cli::{ArgumentError, Command, Report};
use crate::report;
use crate::report::laws;
use crate::report::merge;
use crate::report::part_laws;
use crate::report::row_laws;
use crate::report::session_laws;
use crate::report::sessions;
use crate::report::sessions::SessionRow;
use crate::report::sums;
use crate::report::GroupBy;
use crate::text;
use crate::types;
use crate::types::{EventModel, ReportRow, SessionSummary, Usage};
use vstd::prelude::*;

verus! {

/// An error says what is wrong and which value is.
pub proof fn lemma_errors_name_the_value(error: &ArgumentError, message: String)
    requires
        call_ensures(ArgumentError::message, (error,), message),
    ensures
        error matches ArgumentError::InvalidDate(value) ==> message@ == "invalid date "@ + value@
            + "; expected YYYYMMDD"@,
        error matches ArgumentError::InvalidTimezone(value) ==> message@ == "invalid timezone "@
            + value@,
{
}

/// No value asks for no date; any other asks for the day that it stands for, and is named where it
/// stands for none.
pub proof fn lemma_dates_of_filters(
    value: &str,
    date: Option<CivilDate>,
    read: Result<Option<CivilDate>, ArgumentError>,
    of_none: Result<Option<CivilDate>, ArgumentError>,
)
    requires
        call_ensures(calendar::filter_date, (value,), date),
        call_ensures(cli::parse_filter_date, (Some(value),), read),
        call_ensures(cli::parse_filter_date, (None,), of_none),
    ensures
        of_none matches Ok(none) && none is None,
        date matches Some(day) ==> (read matches Ok(given) && given == Some(day)),
        date is None ==> (read matches Err(ArgumentError::InvalidDate(named)) && named@ == value@),
{
}

/// A zone that is known is used under its name; one that is not is named.
pub proof fn lemma_zones_of_arguments(
    value: &str,
    zone: Option<Timezone>,
    read: Result<Timezone, ArgumentError>,
)
    requires
        call_ensures(Timezone::named, (value,), zone),
        call_ensures(cli::parse_timezone, (value,), read),
    ensures
        zone is Some ==> (read matches Ok(found) && found@ == value@),
        zone is None ==> (read matches Err(ArgumentError::InvalidTimezone(named)) && named@
            == value@),
{
}

/// What was found for a value is used as it is; where nothing was, the value is named.
pub proof fn lemma_found_or_named(
    value: &str,
    date: Option<CivilDate>,
    day: Result<CivilDate, ArgumentError>,
    zone: Option<Timezone>,
    found: Result<Timezone, ArgumentError>,
)
    requires
        call_ensures(cli::date_or_error, (value, date), day),
        call_ensures(cli::zone_or_error, (value, zone), found),
    ensures
        date matches Some(date) ==> (day matches Ok(given) && given == date),
        date is None ==> (day matches Err(ArgumentError::InvalidDate(named)) && named@ == value@),
        zone matches Some(zone) ==> (found matches Ok(given) && given == zone),
        zone is None ==> (found matches Err(ArgumentError::InvalidTimezone(named)) && named@
            == value@),
{
}

/// The report by day or by month is the one of the rows by day or by month, and there is one exactly
/// where the rows can be counted; without a command it is the one by day.
pub proof fn lemma_reports_by_period(
    sessions: &[SessionSummary],
    timezone: &Timezone,
    since: Option<CivilDate>,
    until: Option<CivilDate>,
    split_by_model: bool,
    by_default: Option<Report>,
    daily: Option<Report>,
    monthly: Option<Report>,
    by_day: Option<Vec<ReportRow>>,
    by_month: Option<Vec<ReportRow>>,
)
    requires
        call_ensures(
            cli::make_report,
            (None, sessions, timezone, since, until, split_by_model),
            by_default,
        ),
        call_ensures(
            cli::make_report,
            (Some(Command::Daily), sessions, timezone, since, until, split_by_model),
            daily,
        ),
        call_ensures(
            cli::make_report,
            (Some(Command::Monthly), sessions, timezone, since, until, split_by_model),
            monthly,
        ),
        call_ensures(
            report::try_aggregate_usage,
            (sessions, timezone, GroupBy::Day, since, until, split_by_model),
            by_day,
        ),
        call_ensures(
            report::try_aggregate_usage,
            (sessions, timezone, GroupBy::Month, since, until, split_by_model),
            by_month,
        ),
    ensures
        by_default is Some <==> by_day is Some,
        daily is Some <==> by_day is Some,
        monthly is Some <==> by_month is Some,
        by_day matches Some(by_day) ==> (daily matches Some(Report::Usage(kind, rows)) && kind
            is Daily && merge::row_list(rows@) == merge::row_list(by_day@)),
        by_day matches Some(by_day) ==> (by_default matches Some(Report::Usage(kind, rows)) && kind
            is Daily && merge::row_list(rows@) == merge::row_list(by_day@)),
        by_month matches Some(by_month) ==> (monthly matches Some(Report::Usage(kind, rows))
            && kind is Monthly && merge::row_list(rows@) == merge::row_list(by_month@)),
{
    let events = report::all_events(report::session_models(sessions@));
    let days = report::report_of(
        events,
        timezone@,
        report::grouping(GroupBy::Day, since, until, split_by_model),
    );
    let months = report::report_of(
        events,
        timezone@,
        report::grouping(GroupBy::Month, since, until, split_by_model),
    );
    if let Some(by_day) = by_day {
        if let Some(Report::Usage(_, rows)) = daily {
            part_laws::lemma_one_listing(rows@, by_day@, days);
        }
        if let Some(Report::Usage(_, rows)) = by_default {
            part_laws::lemma_one_listing(rows@, by_day@, days);
        }
    }
    if let Some(by_month) = by_month {
        if let Some(Report::Usage(_, rows)) = monthly {
            part_laws::lemma_one_listing(rows@, by_month@, months);
        }
    }
}

/// The report by session is one of rows by session, and there is one exactly where the rows can be
/// counted.
pub proof fn lemma_reports_by_session(
    sessions: &[SessionSummary],
    timezone: &Timezone,
    since: Option<CivilDate>,
    until: Option<CivilDate>,
    split_by_model: bool,
    made: Option<Report>,
    by_session: Option<Vec<SessionRow>>,
)
    requires
        call_ensures(
            cli::make_report,
            (Some(Command::Sessions), sessions, timezone, since, until, split_by_model),
            made,
        ),
        call_ensures(
            sessions::try_aggregate_sessions,
            (sessions, timezone, since, until),
            by_session,
        ),
    ensures
        made is Some <==> by_session is Some,
        made matches Some(made) ==> (made matches Report::Sessions(rows)
            && session_laws::is_session_report(rows, sessions, timezone, since, until)),
{
}

/// What is doubtful about no histories: nothing. One more history adds its path where its times were
/// written anew and anything of it is within the window, and its unresolved usage within the window
/// where there is any; what was doubtful before stays.
pub proof fn lemma_one_more_history(
    histories: &[SessionHistory],
    more: &[SessionHistory],
    history: SessionHistory,
    timezone: &Timezone,
    since: Option<CivilDate>,
    until: Option<CivilDate>,
    before: Diagnostics,
    after: Diagnostics,
)
    requires
        more@ == histories@.push(history),
        call_ensures(Diagnostics::from_sessions, (histories, timezone, since, until), before)
            || call_ensures(
            Diagnostics::try_from_sessions,
            (histories, timezone, since, until),
            Some(before),
        ),
        call_ensures(Diagnostics::from_sessions, (more, timezone, since, until), after)
            || call_ensures(
            Diagnostics::try_from_sessions,
            (more, timezone, since, until),
            Some(after),
        ),
    ensures
        histories@.len() == 0 ==> before.rewritten_timestamp_sessions@.len() == 0
            && before.unresolved_history_usage@.len() == 0,
        ({
            let events = types::event_models(history.events@);
            let unresolved = types::event_models(history.unresolved_usage@);
            let keep = |event: EventModel|
                session_laws::is_within(event, timezone@, since, until);
            let (listed, paths) = (
                text::texts(before.rewritten_timestamp_sessions@),
                text::texts(after.rewritten_timestamp_sessions@),
            );
            let (summed, sums) = (
                diagnostics::unresolved_models(before.unresolved_history_usage@),
                diagnostics::unresolved_models(after.unresolved_history_usage@),
            );
            &&& paths == if history.has_rewritten_timestamps && (any_of(events, keep) || any_of(
                unresolved,
                keep,
            )) {
                listed.push(history.session_path@)
            } else {
                listed
            }
            &&& !any_of(unresolved, keep) ==> sums == summed
            &&& any_of(unresolved, keep) ==> {
                let last = after.unresolved_history_usage@.last();
                &&& after.unresolved_history_usage@.len()
                    == before.unresolved_history_usage@.len() + 1
                &&& sums.drop_last() == summed
                &&& last.session_path@ == history.session_path@
                &&& row_laws::is_sum(last.usage, unresolved, keep)
            }
        }),
{
    let its = sessions::of_window(timezone@, since, until);
    let events = types::event_models(history.events@);
    let unresolved = types::event_models(history.unresolved_usage@);
    let keep = |event: EventModel| session_laws::is_within(event, timezone@, since, until);
    let (models, all) = (
        diagnostics::history_models(histories@),
        diagnostics::history_models(more@),
    );
    assert(all.drop_last() =~= models);
    assert(all.last() == history@);
    lemma_any_of(events, its, keep);
    lemma_any_of(unresolved, its, keep);
    laws::lemma_same_events_same_usage(unresolved, its, keep);
    row_laws::lemma_is_sum(unresolved, keep);
    if histories@.len() == 0 {
        assert(text::texts(before.rewritten_timestamp_sessions@).len()
            == before.rewritten_timestamp_sessions@.len());
        assert(diagnostics::unresolved_models(before.unresolved_history_usage@).len()
            == before.unresolved_history_usage@.len());
    }
    if any_of(unresolved, keep) {
        let sums = diagnostics::unresolved_models(after.unresolved_history_usage@);
        let summed = diagnostics::unresolved_models(before.unresolved_history_usage@);
        assert(sums.len() == after.unresolved_history_usage@.len());
        assert(summed.len() == before.unresolved_history_usage@.len());
        assert(sums.drop_last() =~= summed);
        assert(sums.last() == after.unresolved_history_usage@.last()@);
    }
}

/// Whether any event is meant.
pub open spec fn any_of(events: Seq<EventModel>, keep: sums::EventTest) -> bool {
    exists|n: int| 0 <= n < events.len() && keep(#[trigger] events[n])
}

proof fn lemma_any_of(events: Seq<EventModel>, its: sums::EventTest, keep: sums::EventTest)
    requires
        forall|event: EventModel| #[trigger] its(event) == keep(event),
    ensures
        any_of(events, keep) == sums::any_where(events, its),
{
    if any_of(events, keep) {
        let n = choose|n: int| 0 <= n < events.len() && keep(#[trigger] events[n]);
        assert(its(events[n]));
    }
    if sums::any_where(events, its) {
        let n = choose|n: int| 0 <= n < events.len() && its(#[trigger] events[n]);
        assert(keep(events[n]));
    }
}

/// A history is recorded by its path: where its times were written anew and it is within the window,
/// and with its unresolved usage where it has any.
pub proof fn lemma_history_is_recorded(
    diagnostics: &mut Diagnostics,
    history: &SessionHistory,
    included: bool,
    unresolved: Option<Usage>,
)
    requires
        call_ensures(Diagnostics::record, (diagnostics, history, included, unresolved), ()),
    ensures
        ({
            let (before, after) = (*old(diagnostics), *final(diagnostics));
            let (listed, paths) = (
                text::texts(before.rewritten_timestamp_sessions@),
                text::texts(after.rewritten_timestamp_sessions@),
            );
            &&& history.has_rewritten_timestamps && included ==> paths == listed.push(
                history.session_path@,
            )
            &&& !history.has_rewritten_timestamps || !included ==> paths == listed
            &&& unresolved is None ==> diagnostics::unresolved_models(
                after.unresolved_history_usage@,
            ) == diagnostics::unresolved_models(before.unresolved_history_usage@)
            &&& unresolved matches Some(usage) ==> {
                let last = after.unresolved_history_usage@.last();
                &&& after.unresolved_history_usage@.len()
                    == before.unresolved_history_usage@.len() + 1
                &&& diagnostics::unresolved_models(after.unresolved_history_usage@).drop_last()
                    == diagnostics::unresolved_models(before.unresolved_history_usage@)
                &&& last.session_path@ == history.session_path@
                &&& last.usage == usage
            }
        }),
{
    let (before, after) = (*old(diagnostics), *final(diagnostics));
    if let Some(usage) = unresolved {
        let sums = diagnostics::unresolved_models(after.unresolved_history_usage@);
        let summed = diagnostics::unresolved_models(before.unresolved_history_usage@);
        assert(sums.len() == after.unresolved_history_usage@.len());
        assert(summed.len() == before.unresolved_history_usage@.len());
        assert(sums.drop_last() =~= summed);
        assert(sums.last() == after.unresolved_history_usage@.last()@);
    }
}

/// Each kind of doubt has a warning exactly where there is any of it, which says how many sessions
/// it is about.
pub proof fn lemma_warnings_count_sessions(
    diagnostics: &Diagnostics,
    rewritten: Option<String>,
    unresolved: Option<String>,
)
    requires
        call_ensures(Diagnostics::rewritten_warning, (diagnostics,), rewritten),
        call_ensures(Diagnostics::unresolved_warning, (diagnostics,), unresolved),
    ensures
        rewritten is Some <==> diagnostics.rewritten_timestamp_sessions@.len() > 0,
        unresolved is Some <==> diagnostics.unresolved_history_usage@.len() > 0,
        rewritten matches Some(warning) ==> warning@ == "warning: "@ + text::digits(
            diagnostics.rewritten_timestamp_sessions@.len(),
        )
            + " histories have rewritten event timestamps; daily/monthly dates reflect stored timestamps and cannot establish original usage dates. See JSON diagnostics.rewritten_timestamp_sessions."@,
        unresolved matches Some(warning) ==> warning@ == "warning: "@ + text::digits(
            diagnostics.unresolved_history_usage@.len(),
        )
            + " child histories contain checkpoints or prefixes of unresolved ownership; excluded from totals. See JSON diagnostics.unresolved_history_usage. These snapshots may overlap and must not be summed as new usage."@,
{
}

} // verus!
