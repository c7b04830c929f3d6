//! Usage by session.

use crate::calendar;
use crate::calendar::{CivilDate, Timezone};
use crate::ordering;
use crate::ordering::Ranked;
use crate::report;
use crate::report::sums;
use crate::session_log::wire::LOG_SUFFIX;
use crate::text;
use crate::text_map::TextMap;
use crate::types;
use crate::types::{
    EventModel, ModelTotals, SessionModel, SessionSummary, TokenCounts, TotalsModel, Usage,
    UsageEvent,
};
use vstd::prelude::*;

verus! {

/// What stands for a directory that is not known.
pub const NO_DIRECTORY: &'static str = "-";

/// What a session used: when it was last active, in which file it is logged, where it worked.
pub struct SessionRowModel {
    pub date_key: Seq<char>,
    pub session_id: Seq<char>,
    pub session_file: Seq<char>,
    pub directory: Seq<char>,
    pub last_activity_unix_ms: i64,
    pub usage: TokenCounts,
    pub models: Map<Seq<char>, TotalsModel>,
}

/// What a session used: when it was last active, in which file it is logged, where it worked.
#[derive(Debug, Clone, PartialEq, Eq)]
pub struct SessionRow {
    pub date_key: String,
    pub session_id: String,
    pub session_file: String,
    pub directory: String,
    pub last_activity_unix_ms: i64,
    pub usage: Usage,
    pub models: TextMap<ModelTotals>,
}

impl View for SessionRow {
    type V = SessionRowModel;

    open spec fn view(&self) -> SessionRowModel {
        SessionRowModel {
            date_key: self.date_key@,
            session_id: self.session_id@,
            session_file: self.session_file@,
            directory: self.directory@,
            last_activity_unix_ms: self.last_activity_unix_ms,
            usage: self.usage@,
            models: types::totals_by_model(self.models@),
        }
    }
}

/// The latest active sessions come first, and those of one instant in the order of their files.
impl Ranked for SessionRow {
    open spec fn ranks_up_to(self, other: SessionRow) -> bool {
        if self.last_activity_unix_ms == other.last_activity_unix_ms {
            !text::precedes(other.session_file@, self.session_file@)
        } else {
            self.last_activity_unix_ms > other.last_activity_unix_ms
        }
    }

    fn is_up_to(&self, other: &SessionRow) -> (up_to: bool) {
        if self.last_activity_unix_ms == other.last_activity_unix_ms {
            !text::text_precedes(other.session_file.as_str(), self.session_file.as_str())
        } else {
            self.last_activity_unix_ms > other.last_activity_unix_ms
        }
    }

    proof fn ranks_total(a: SessionRow, b: SessionRow) {
        text::lemma_not_after_total(a.session_file@, b.session_file@);
    }

    proof fn ranks_transitive(a: SessionRow, b: SessionRow, c: SessionRow) {
        if a.last_activity_unix_ms == b.last_activity_unix_ms && b.last_activity_unix_ms
            == c.last_activity_unix_ms {
            text::lemma_not_after_transitive(a.session_file@, b.session_file@, c.session_file@);
        }
    }
}

/// The events that have a date, and one within the window.
pub open spec fn of_window(
    zone: Seq<char>,
    since: Option<CivilDate>,
    until: Option<CivilDate>,
) -> sums::EventTest {
    |event: EventModel| counts_at(report::local_date(event.timestamp_unix_ms, zone), since, until)
}

/// Whether an event at a date counts.
pub open spec fn counts_at(
    date: Option<CivilDate>,
    since: Option<CivilDate>,
    until: Option<CivilDate>,
) -> bool {
    date matches Some(date) && report::in_window(date, since, until)
}

/// The name of a session's log, without its directory and its ending.
pub open spec fn file_of(session_path: Seq<char>) -> Seq<char> {
    text::without_suffixes(text::last_segment(session_path), LOG_SUFFIX@)
}

/// The row of a session, if any of its events counts.
pub open spec fn row_of_session(
    session: SessionModel,
    zone: Seq<char>,
    since: Option<CivilDate>,
    until: Option<CivilDate>,
) -> Option<SessionRowModel> {
    let keep = of_window(zone, since, until);
    match sums::latest_where(session.events, keep) {
        Some(latest) => Some(
            SessionRowModel {
                date_key: calendar::date_text(report::local_date(latest, zone)->0),
                session_id: session.session_id,
                session_file: file_of(session.session_path),
                directory: match session.directory {
                    Some(directory) => directory,
                    None => NO_DIRECTORY@,
                },
                last_activity_unix_ms: latest,
                usage: sums::usage_where(session.events, keep),
                models: sums::models_where(session.events, keep),
            },
        ),
        None => None,
    }
}

/// The rows of sessions, in the order of the sessions.
pub open spec fn rows_of_sessions(
    sessions: Seq<SessionModel>,
    zone: Seq<char>,
    since: Option<CivilDate>,
    until: Option<CivilDate>,
) -> Seq<SessionRowModel>
    decreases sessions.len(),
{
    if sessions.len() == 0 {
        Seq::empty()
    } else {
        let before = rows_of_sessions(sessions.drop_last(), zone, since, until);
        match row_of_session(sessions.last(), zone, since, until) {
            Some(row) => before.push(row),
            None => before,
        }
    }
}

/// Whether the counts of a session are within 64 bits.
pub open spec fn session_fits(
    session: SessionModel,
    zone: Seq<char>,
    since: Option<CivilDate>,
    until: Option<CivilDate>,
) -> bool {
    sums::usage_where(session.events, of_window(zone, since, until)).fits()
}

/// Whether the counts of each session are within 64 bits.
pub open spec fn sessions_fit(
    sessions: Seq<SessionModel>,
    zone: Seq<char>,
    since: Option<CivilDate>,
    until: Option<CivilDate>,
) -> bool {
    forall|i: int| 0 <= i < sessions.len() ==> session_fits(#[trigger] sessions[i], zone, since, until)
}

/// The rows of a list.
pub open spec fn session_row_models(rows: Seq<SessionRow>) -> Seq<SessionRowModel> {
    rows.map_values(|row: SessionRow| row@)
}

/// Whether the list holds exactly the given rows, sorted by rank.
pub open spec fn ranks_rows(rows: Seq<SessionRow>, models: Seq<SessionRowModel>) -> bool {
    exists|found: Seq<SessionRow>|
        session_row_models(found) == models && #[trigger] ordering::is_stable_sort(rows, found)
}

/// An instant at which a session was active, and its local date.
#[derive(Debug, Clone, Copy, PartialEq, Eq, Structural)]
pub struct Activity {
    pub unix_ms: i64,
    pub date: CivilDate,
}

/// What was counted of a session: its usage, in all and by model, and its latest event.
pub struct TallyModel {
    pub usage: TokenCounts,
    pub models: Map<Seq<char>, TotalsModel>,
    pub latest: Option<Activity>,
}

/// What was counted of a session: its usage, in all and by model, and its latest event.
pub struct SessionTally {
    pub usage: Usage,
    pub models: TextMap<ModelTotals>,
    pub latest: Option<Activity>,
}

impl View for SessionTally {
    type V = TallyModel;

    open spec fn view(&self) -> TallyModel {
        TallyModel {
            usage: self.usage@,
            models: types::totals_by_model(self.models@),
            latest: self.latest,
        }
    }
}

/// A count that nothing was added to.
pub open spec fn no_tally() -> TallyModel {
    TallyModel { usage: TokenCounts::zero(), models: Map::empty(), latest: None }
}

/// A count with an event at a date.
pub open spec fn tally_with(
    tally: TallyModel,
    event: EventModel,
    date: Option<CivilDate>,
    since: Option<CivilDate>,
    until: Option<CivilDate>,
) -> TallyModel {
    if counts_at(date, since, until) {
        TallyModel {
            usage: tally.usage.plus(event.usage@),
            models: sums::models_with(tally.models, event),
            latest: if tally.latest is None || event.timestamp_unix_ms > tally.latest->0.unix_ms {
                Some(Activity { unix_ms: event.timestamp_unix_ms, date: date->0 })
            } else {
                tally.latest
            },
        }
    } else {
        tally
    }
}

/// Whether the counts stay within 64 bits when an event is added.
pub open spec fn tally_can_take(tally: TallyModel, event: EventModel) -> bool {
    &&& tally.usage.plus(event.usage@).fits()
    &&& tally.models.dom().contains(event.model) ==> tally.models[event.model].usage.plus(
        event.usage@,
    ).fits()
}

impl SessionTally {
    /// A count that nothing was added to.
    pub fn new() -> (tally: SessionTally)
        ensures
            tally@ == no_tally(),
    {
        let tally = SessionTally { usage: Usage::default(), models: TextMap::new(), latest: None };
        assert(tally@.models =~= Map::empty());
        tally
    }

    /// Adds an event at a date, if it counts.
    pub fn count_at(
        &mut self,
        event: &UsageEvent,
        date: Option<CivilDate>,
        since: Option<CivilDate>,
        until: Option<CivilDate>,
    )
        requires
            counts_at(date, since, until) ==> tally_can_take(old(self)@, event@),
        ensures
            final(self)@ == tally_with(old(self)@, event@, date, since, until),
    {
        let date: CivilDate = match date {
            Some(date) => date,
            None => {
                return;
            },
        };
        if !report::date_in_window(&date, &since, &until) {
            return;
        }
        self.usage.add_assign(&event.usage);
        sums::add_to_models(&mut self.models, event);
        let later: bool = match self.latest {
            Some(latest) => event.timestamp_unix_ms > latest.unix_ms,
            None => true,
        };
        if later {
            self.latest = Some(Activity { unix_ms: event.timestamp_unix_ms, date });
        }
    }
}

/// What is counted of the events of a session.
spec fn tally_of(
    events: Seq<EventModel>,
    zone: Seq<char>,
    since: Option<CivilDate>,
    until: Option<CivilDate>,
) -> TallyModel {
    let keep = of_window(zone, since, until);
    TallyModel {
        usage: sums::usage_where(events, keep),
        models: sums::models_where(events, keep),
        latest: match sums::latest_where(events, keep) {
            Some(latest) => Some(
                Activity { unix_ms: latest, date: report::local_date(latest, zone)->0 },
            ),
            None => None,
        },
    }
}

proof fn lemma_tally_pushed(
    events: Seq<EventModel>,
    event: EventModel,
    zone: Seq<char>,
    since: Option<CivilDate>,
    until: Option<CivilDate>,
)
    ensures
        tally_of(events.push(event), zone, since, until) == tally_with(
            tally_of(events, zone, since, until),
            event,
            report::local_date(event.timestamp_unix_ms, zone),
            since,
            until,
        ),
{
    let keep = of_window(zone, since, until);
    sums::lemma_usage_pushed(events, event, keep);
    sums::lemma_models_pushed(events, event, keep);
    assert(events.push(event).drop_last() =~= events);
}

/// An event can be added to the count of those before it exactly when the usage stays within 64
/// bits.
proof fn lemma_tally_can_take(
    events: Seq<EventModel>,
    n: int,
    zone: Seq<char>,
    since: Option<CivilDate>,
    until: Option<CivilDate>,
)
    requires
        0 <= n < events.len(),
        sums::usage_where(events, of_window(zone, since, until)).fits(),
        of_window(zone, since, until)(events[n]),
    ensures
        tally_can_take(tally_of(events.take(n), zone, since, until), events[n]),
{
    let keep = of_window(zone, since, until);
    let its = sums::of_model(keep, events[n].model);
    sums::lemma_usage_grows(events, n + 1, keep);
    assert(events.take(n + 1) =~= events.take(n).push(events[n]));
    sums::lemma_usage_pushed(events.take(n), events[n], keep);
    sums::lemma_usage_pushed(events.take(n), events[n], its);
    sums::lemma_usage_within(events.take(n + 1), its, keep);
}

/// What is counted of the events of a session within a window.
pub fn tally_events(
    events: &Vec<UsageEvent>,
    timezone: &Timezone,
    since: Option<CivilDate>,
    until: Option<CivilDate>,
) -> (tally: SessionTally)
    requires
        sums::usage_where(
            types::event_models(events@),
            of_window(timezone@, since, until),
        ).fits(),
    ensures
        tally@.usage == sums::usage_where(
            types::event_models(events@),
            of_window(timezone@, since, until),
        ),
        tally@.models == sums::models_where(
            types::event_models(events@),
            of_window(timezone@, since, until),
        ),
        tally.latest is Some <==> sums::latest_where(
            types::event_models(events@),
            of_window(timezone@, since, until),
        ) is Some,
        tally.latest matches Some(latest) ==> sums::latest_where(
            types::event_models(events@),
            of_window(timezone@, since, until),
        ) == Some(latest.unix_ms) && latest.date == report::local_date(
            latest.unix_ms,
            timezone@,
        )->0 && report::printable(latest.date),
        report::clock_shows(types::event_models(events@), timezone@),
{
    let ghost all = types::event_models(events@);
    let mut tally = SessionTally::new();
    proof {
        let keep = of_window(timezone@, since, until);
        assert(all.take(0) =~= Seq::<EventModel>::empty());
        assert(sums::models_where(all.take(0), keep) =~= Map::empty());
    }
    let mut i: usize = 0;
    while i < events.len()
        invariant
            i <= events@.len(),
            all == types::event_models(events@),
            sums::usage_where(all, of_window(timezone@, since, until)).fits(),
            tally@ == tally_of(all.take(i as int), timezone@, since, until),
            tally.latest matches Some(latest) ==> report::printable(latest.date),
            report::clock_shows(all.take(i as int), timezone@),
        decreases events@.len() - i,
    {
        let event = &events[i];
        let date = report::event_date(event.timestamp_unix_ms, timezone);
        proof {
            assert(all[i as int] == event@);
            if counts_at(date, since, until) {
                lemma_tally_can_take(all, i as int, timezone@, since, until);
            }
            lemma_tally_pushed(all.take(i as int), event@, timezone@, since, until);
            assert(all.take(i + 1) =~= all.take(i as int).push(event@));
        }
        tally.count_at(event, date, since, until);
        i = i + 1;
    }
    proof {
        assert(all.take(i as int) =~= all);
    }
    tally
}

/// The row of a session whose events were counted, if any of them counts.
pub fn session_row(session: &SessionSummary, tally: SessionTally) -> (row: Option<SessionRow>)
    requires
        tally.latest matches Some(latest) ==> report::printable(latest.date),
    ensures
        row is Some <==> tally.latest is Some,
        row matches Some(row) ==> row@ == (SessionRowModel {
            date_key: calendar::date_text(tally.latest->0.date),
            session_id: session@.session_id,
            session_file: file_of(session@.session_path),
            directory: match session@.directory {
                Some(directory) => directory,
                None => NO_DIRECTORY@,
            },
            last_activity_unix_ms: tally.latest->0.unix_ms,
            usage: tally@.usage,
            models: tally@.models,
        }),
{
    let latest: Activity = match tally.latest {
        Some(last) => last,
        None => {
            return None;
        },
    };
    proof {
        reveal_strlit(".jsonl");
    }
    let name = text::file_segment(session.session_path.as_str());
    let session_file = text::trim_end_matches(name.as_str(), LOG_SUFFIX);
    let directory: String = match &session.directory {
        Some(directory) => directory.clone(),
        None => NO_DIRECTORY.to_owned(),
    };
    Some(
        SessionRow {
            date_key: calendar::format_date(&latest.date),
            session_id: session.session_id.clone(),
            session_file,
            directory,
            last_activity_unix_ms: latest.unix_ms,
            usage: tally.usage,
            models: tally.models,
        },
    )
}

/// The usage of sessions one by one: a row for each session that has an event within the window,
/// the latest active first.
pub fn aggregate_sessions(
    sessions: &[SessionSummary],
    timezone: &Timezone,
    since: Option<CivilDate>,
    until: Option<CivilDate>,
) -> (rows: Vec<SessionRow>)
    requires
        sessions_fit(report::session_models(sessions@), timezone@, since, until),
    ensures
        ranks_rows(
            rows@,
            rows_of_sessions(report::session_models(sessions@), timezone@, since, until),
        ),
        forall|i: int|
            0 <= i < sessions@.len() ==> report::clock_shows(
                (#[trigger] sessions@[i])@.events,
                timezone@,
            ),
{
    let ghost models = report::session_models(sessions@);
    let mut rows: Vec<SessionRow> = Vec::new();
    let mut i: usize = 0;
    while i < sessions.len()
        invariant
            i <= sessions@.len(),
            models == report::session_models(sessions@),
            sessions_fit(models, timezone@, since, until),
            session_row_models(rows@) == rows_of_sessions(
                models.take(i as int),
                timezone@,
                since,
                until,
            ),
            forall|k: int|
                0 <= k < i ==> report::clock_shows((#[trigger] sessions@[k])@.events, timezone@),
        decreases sessions@.len() - i,
    {
        let session = &sessions[i];
        proof {
            assert(models[i as int] == session@);
            assert(models.take(i + 1).drop_last() =~= models.take(i as int));
        }
        let tally = tally_events(&session.events, timezone, since, until);
        let ghost before = session_row_models(rows@);
        match session_row(session, tally) {
            Some(row) => {
                rows.push(row);
                assert(session_row_models(rows@) =~= before.push(row@));
            },
            None => {},
        }
        i = i + 1;
    }
    proof {
        assert(models.take(i as int) =~= models);
    }
    ordering::sort_by_rank(rows)
}

/// Whether the counts of the events within a window stay within 64 bits.
fn events_fit(
    events: &Vec<UsageEvent>,
    timezone: &Timezone,
    since: Option<CivilDate>,
    until: Option<CivilDate>,
) -> (fits: bool)
    ensures
        fits == sums::usage_where(
            types::event_models(events@),
            of_window(timezone@, since, until),
        ).fits(),
{
    let ghost all = types::event_models(events@);
    let ghost keep = of_window(timezone@, since, until);
    let mut usage = Usage::default();
    proof {
        assert(all.take(0) =~= Seq::<EventModel>::empty());
    }
    let mut i: usize = 0;
    while i < events.len()
        invariant
            i <= events@.len(),
            all == types::event_models(events@),
            keep == of_window(timezone@, since, until),
            usage@ == sums::usage_where(all.take(i as int), keep),
        decreases events@.len() - i,
    {
        let event = &events[i];
        proof {
            assert(all[i as int] == event@);
            sums::lemma_usage_pushed(all.take(i as int), event@, keep);
            assert(all.take(i + 1) =~= all.take(i as int).push(event@));
            sums::lemma_usage_grows(all, i + 1, keep);
        }
        if let Some(date) = report::event_date(event.timestamp_unix_ms, timezone) {
            if report::date_in_window(&date, &since, &until) {
                if !usage.can_add(&event.usage) {
                    return false;
                }
                usage.add_assign(&event.usage);
            }
        }
        i = i + 1;
    }
    proof {
        assert(all.take(i as int) =~= all);
    }
    true
}

/// The usage of sessions one by one, where the counts of each are within 64 bits.
pub fn try_aggregate_sessions(
    sessions: &[SessionSummary],
    timezone: &Timezone,
    since: Option<CivilDate>,
    until: Option<CivilDate>,
) -> (rows: Option<Vec<SessionRow>>)
    ensures
        rows is Some <==> sessions_fit(
            report::session_models(sessions@),
            timezone@,
            since,
            until,
        ),
        rows matches Some(rows) ==> ranks_rows(
            rows@,
            rows_of_sessions(report::session_models(sessions@), timezone@, since, until),
        ),
{
    let ghost models = report::session_models(sessions@);
    let mut i: usize = 0;
    while i < sessions.len()
        invariant
            i <= sessions@.len(),
            models == report::session_models(sessions@),
            forall|k: int|
                0 <= k < i ==> session_fits(#[trigger] models[k], timezone@, since, until),
        decreases sessions@.len() - i,
    {
        let session = &sessions[i];
        assert(models[i as int] == session@);
        if !events_fit(&session.events, timezone, since, until) {
            return None;
        }
        i = i + 1;
    }
    Some(aggregate_sessions(sessions, timezone, since, until))
}

} // verus!
