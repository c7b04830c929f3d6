//! What the command line asks for, and how reports are shown.

pub mod diagnostics;
pub mod laws;
pub mod payload;
pub mod payload_laws;
pub mod table_laws;
pub mod tables;

use self::tables::ReportKind;
use crate::calendar;
use crate::calendar::{CivilDate, Timezone};
use crate::report;
use crate::report::GroupBy;
use crate::report::sessions;
use crate::report::sessions::SessionRow;
use crate::types::{ReportRow, SessionSummary};
use vstd::prelude::*;

verus! {

/// The directory of Codex below the home directory.
pub const DEFAULT_CODEX_HOME_DIRNAME: &'static str = ".codex";

/// The directory of session logs below that of Codex.
pub const DEFAULT_SESSIONS_SUBDIR: &'static str = "sessions";

/// The directory of caches below the user's.
pub const DEFAULT_CACHE_SUBDIR: &'static str = "codex-usage";

/// The name of the cache of sessions.
pub const DEFAULT_CACHE_FILENAME: &'static str = "session-cache-v4.bin";

/// The time zone of reports where none is asked for.
pub const DEFAULT_TIMEZONE: &'static str = "Asia/Seoul";

/// What is wrong with an argument.
#[derive(Debug, Clone, PartialEq, Eq)]
pub enum ArgumentError {
    /// A date that is not one of the form `YYYYMMDD`.
    InvalidDate(String),
    /// A time zone that is not known.
    InvalidTimezone(String),
}

impl ArgumentError {
    /// The text of the error.
    pub open spec fn text(self) -> Seq<char> {
        match self {
            ArgumentError::InvalidDate(value) => "invalid date "@ + value@
                + "; expected YYYYMMDD"@,
            ArgumentError::InvalidTimezone(value) => "invalid timezone "@ + value@,
        }
    }

    /// The text of the error.
    pub fn message(&self) -> (message: String)
        ensures
            message@ == self.text(),
    {
        match self {
            ArgumentError::InvalidDate(value) => {
                let mut message = "invalid date ".to_owned();
                message.append(value.as_str());
                message.append("; expected YYYYMMDD");
                message
            },
            ArgumentError::InvalidTimezone(value) => {
                let mut message = "invalid timezone ".to_owned();
                message.append(value.as_str());
                message
            },
        }
    }
}

/// The date that a filter gives, if it gives one.
pub fn parse_filter_date(value: Option<&str>) -> (date: Result<Option<CivilDate>, ArgumentError>)
    ensures
        value is None ==> date == Ok::<Option<CivilDate>, ArgumentError>(None),
        value matches Some(value) ==> match calendar::date_by_pattern(value@, "%Y%m%d"@) {
            Some(day) => date == Ok::<Option<CivilDate>, ArgumentError>(Some(day)) && day.wf(),
            None => date matches Err(ArgumentError::InvalidDate(given)) && given@ == value@,
        },
{
    match value {
        Some(value) => match date_or_error(value, calendar::filter_date(value)) {
            Ok(day) => Ok(Some(day)),
            Err(error) => Err(error),
        },
        None => Ok(None),
    }
}

/// The date that a text stands for, or that it stands for none.
pub fn date_or_error(value: &str, date: Option<CivilDate>) -> (day: Result<
    CivilDate,
    ArgumentError,
>)
    ensures
        date matches Some(date) ==> day == Ok::<CivilDate, ArgumentError>(date),
        date is None ==> (day matches Err(ArgumentError::InvalidDate(given)) && given@ == value@),
{
    match date {
        Some(date) => Ok(date),
        None => Err(ArgumentError::InvalidDate(value.to_owned())),
    }
}

/// The time zone of a name.
pub fn parse_timezone(value: &str) -> (zone: Result<Timezone, ArgumentError>)
    ensures
        if calendar::timezone_known(value@) {
            zone matches Ok(zone) && zone@ == value@
        } else {
            zone matches Err(ArgumentError::InvalidTimezone(given)) && given@ == value@
        },
{
    zone_or_error(value, Timezone::named(value))
}

/// The time zone of a name, or that there is none.
pub fn zone_or_error(value: &str, zone: Option<Timezone>) -> (found: Result<
    Timezone,
    ArgumentError,
>)
    ensures
        zone matches Some(zone) ==> found == Ok::<Timezone, ArgumentError>(zone),
        zone is None ==> (found matches Err(ArgumentError::InvalidTimezone(given)) && given@
            == value@),
{
    match zone {
        Some(zone) => Ok(zone),
        None => Err(ArgumentError::InvalidTimezone(value.to_owned())),
    }
}

/// What can be asked for.
#[derive(Debug, Clone, Copy, PartialEq, Eq, Structural)]
pub enum Command {
    Daily,
    Monthly,
    Sessions,
}

/// A report that was asked for.
pub enum Report {
    /// Usage by period.
    Usage(ReportKind, Vec<ReportRow>),
    /// Usage by session.
    Sessions(Vec<SessionRow>),
}

/// Whether the counts of a report are within 64 bits.
pub open spec fn report_is_countable(
    command: Command,
    sessions: Seq<SessionSummary>,
    zone: Seq<char>,
    since: Option<CivilDate>,
    until: Option<CivilDate>,
    split_by_model: bool,
) -> bool {
    let models = report::session_models(sessions);
    match command {
        Command::Daily => report::report_fits(
            report::all_events(models),
            zone,
            report::grouping(GroupBy::Day, since, until, split_by_model),
        ),
        Command::Monthly => report::report_fits(
            report::all_events(models),
            zone,
            report::grouping(GroupBy::Month, since, until, split_by_model),
        ),
        Command::Sessions => sessions::sessions_fit(models, zone, since, until),
    }
}

/// Whether this is the report that a command asks for.
pub open spec fn answers(
    made: Report,
    command: Command,
    sessions: Seq<SessionSummary>,
    zone: Seq<char>,
    since: Option<CivilDate>,
    until: Option<CivilDate>,
    split_by_model: bool,
) -> bool {
    let models = report::session_models(sessions);
    match command {
        Command::Daily => made matches Report::Usage(kind, rows) && kind == ReportKind::Daily
            && report::lists_table(
            rows@,
            report::report_of(
                report::all_events(models),
                zone,
                report::grouping(GroupBy::Day, since, until, split_by_model),
            ),
        ),
        Command::Monthly => made matches Report::Usage(kind, rows) && kind == ReportKind::Monthly
            && report::lists_table(
            rows@,
            report::report_of(
                report::all_events(models),
                zone,
                report::grouping(GroupBy::Month, since, until, split_by_model),
            ),
        ),
        Command::Sessions => made matches Report::Sessions(rows) && sessions::ranks_rows(
            rows@,
            sessions::rows_of_sessions(models, zone, since, until),
        ),
    }
}

/// The command, by day where none is given.
pub open spec fn command_or_daily(command: Option<Command>) -> Command {
    match command {
        Some(command) => command,
        None => Command::Daily,
    }
}

/// The report that a command asks for, where its counts are within 64 bits; usage by day where no
/// command is given.
pub fn make_report(
    command: Option<Command>,
    sessions: &[SessionSummary],
    timezone: &Timezone,
    since: Option<CivilDate>,
    until: Option<CivilDate>,
    split_by_model: bool,
) -> (made: Option<Report>)
    ensures
        made is Some <==> report_is_countable(
            command_or_daily(command),
            sessions@,
            timezone@,
            since,
            until,
            split_by_model,
        ),
        made matches Some(made) ==> answers(
            made,
            command_or_daily(command),
            sessions@,
            timezone@,
            since,
            until,
            split_by_model,
        ),
{
    let command: Command = match command {
        Some(command) => command,
        None => Command::Daily,
    };
    match command {
        Command::Daily => match report::try_aggregate_usage(
            sessions,
            timezone,
            GroupBy::Day,
            since,
            until,
            split_by_model,
        ) {
            Some(rows) => Some(Report::Usage(ReportKind::Daily, rows)),
            None => None,
        },
        Command::Monthly => match report::try_aggregate_usage(
            sessions,
            timezone,
            GroupBy::Month,
            since,
            until,
            split_by_model,
        ) {
            Some(rows) => Some(Report::Usage(ReportKind::Monthly, rows)),
            None => None,
        },
        Command::Sessions => match report::try_aggregate_sessions(
            sessions,
            timezone,
            since,
            until,
        ) {
            Some(rows) => Some(Report::Sessions(rows)),
            None => None,
        },
    }
}

} // verus!
