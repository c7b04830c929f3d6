//! What is doubtful about the histories of sessions.

use crate::calendar::{CivilDate, Timezone};
use crate::report;
use crate::report::sessions;
use crate::report::sums;
use crate::text;
use crate::types;
use crate::types::{EventModel, TokenCounts, Usage, UsageEvent};
use vstd::prelude::*;

verus! {

/// The history of a session: what it used, what it may have used or repeated from another, and
/// whether the times of its events were written anew.
pub struct HistoryModel {
    pub session_path: Seq<char>,
    pub events: Seq<EventModel>,
    pub has_rewritten_timestamps: bool,
    pub unresolved_usage: Seq<EventModel>,
}

/// The history of a session: what it used, what it may have used or repeated from another, and
/// whether the times of its events were written anew.
#[derive(Debug, Clone, PartialEq, Eq)]
pub struct SessionHistory {
    pub session_path: String,
    pub events: Vec<UsageEvent>,
    pub has_rewritten_timestamps: bool,
    pub unresolved_usage: Vec<UsageEvent>,
}

impl View for SessionHistory {
    type V = HistoryModel;

    open spec fn view(&self) -> HistoryModel {
        HistoryModel {
            session_path: self.session_path@,
            events: types::event_models(self.events@),
            has_rewritten_timestamps: self.has_rewritten_timestamps,
            unresolved_usage: types::event_models(self.unresolved_usage@),
        }
    }
}

/// The histories of a list.
pub open spec fn history_models(histories: Seq<SessionHistory>) -> Seq<HistoryModel> {
    histories.map_values(|history: SessionHistory| history@)
}

/// Usage that may be a session's own or another's.
#[derive(Debug, Clone, PartialEq, Eq)]
pub struct UnresolvedUsage {
    pub session_path: String,
    pub usage: Usage,
}

/// Usage that may be a session's own or another's.
pub struct UnresolvedModel {
    pub session_path: Seq<char>,
    pub usage: TokenCounts,
}

impl View for UnresolvedUsage {
    type V = UnresolvedModel;

    open spec fn view(&self) -> UnresolvedModel {
        UnresolvedModel { session_path: self.session_path@, usage: self.usage@ }
    }
}

/// The unresolved usages of a list.
pub open spec fn unresolved_models(usages: Seq<UnresolvedUsage>) -> Seq<UnresolvedModel> {
    usages.map_values(|usage: UnresolvedUsage| usage@)
}

/// The sessions with events within a window whose times were written anew.
pub open spec fn rewritten_paths(histories: Seq<HistoryModel>, keep: sums::EventTest) -> Seq<
    Seq<char>,
>
    decreases histories.len(),
{
    if histories.len() == 0 {
        Seq::empty()
    } else {
        let before = rewritten_paths(histories.drop_last(), keep);
        let last = histories.last();
        if last.has_rewritten_timestamps && (sums::any_where(last.events, keep) || sums::any_where(
            last.unresolved_usage,
            keep,
        )) {
            before.push(last.session_path)
        } else {
            before
        }
    }
}

/// The sums of the unresolved usage within a window, of the sessions that have any.
pub open spec fn unresolved_sums(histories: Seq<HistoryModel>, keep: sums::EventTest) -> Seq<
    UnresolvedModel,
>
    decreases histories.len(),
{
    if histories.len() == 0 {
        Seq::empty()
    } else {
        let before = unresolved_sums(histories.drop_last(), keep);
        let last = histories.last();
        if sums::any_where(last.unresolved_usage, keep) {
            before.push(
                UnresolvedModel {
                    session_path: last.session_path,
                    usage: sums::usage_where(last.unresolved_usage, keep),
                },
            )
        } else {
            before
        }
    }
}

/// Whether the sums of unresolved usage are within 64 bits.
pub open spec fn unresolved_fits(histories: Seq<HistoryModel>, keep: sums::EventTest) -> bool {
    forall|i: int|
        0 <= i < histories.len() ==> sums::usage_where(
            (#[trigger] histories[i]).unresolved_usage,
            keep,
        ).fits()
}

/// What is doubtful about the histories of sessions.
#[derive(Debug, Clone, PartialEq, Eq)]
pub struct Diagnostics {
    pub rewritten_timestamp_sessions: Vec<String>,
    pub unresolved_history_usage: Vec<UnresolvedUsage>,
}

impl Default for Diagnostics {
    fn default() -> (diagnostics: Diagnostics)
        ensures
            diagnostics.rewritten_timestamp_sessions@ == Seq::<String>::empty(),
            diagnostics.unresolved_history_usage@ == Seq::<UnresolvedUsage>::empty(),
    {
        Diagnostics {
            rewritten_timestamp_sessions: Vec::new(),
            unresolved_history_usage: Vec::new(),
        }
    }
}

/// Whether an event has a date within a window.
fn is_included(
    event: &UsageEvent,
    timezone: &Timezone,
    since: Option<CivilDate>,
    until: Option<CivilDate>,
) -> (included: bool)
    ensures
        included == sessions::of_window(timezone@, since, until)(event@),
{
    match report::event_date(event.timestamp_unix_ms, timezone) {
        Some(date) => report::date_in_window(&date, &since, &until),
        None => false,
    }
}

/// Whether any event has a date within a window.
fn any_included(
    events: &Vec<UsageEvent>,
    timezone: &Timezone,
    since: Option<CivilDate>,
    until: Option<CivilDate>,
) -> (any: bool)
    ensures
        any == sums::any_where(
            types::event_models(events@),
            sessions::of_window(timezone@, since, until),
        ),
{
    let ghost all = types::event_models(events@);
    let ghost keep = sessions::of_window(timezone@, since, until);
    let mut i: usize = 0;
    while i < events.len()
        invariant
            i <= events@.len(),
            all == types::event_models(events@),
            keep == sessions::of_window(timezone@, since, until),
            forall|j: int| 0 <= j < i ==> !keep(#[trigger] all[j]),
        decreases events@.len() - i,
    {
        assert(all[i as int] == events@[i as int]@);
        if is_included(&events[i], timezone, since, until) {
            return true;
        }
        i = i + 1;
    }
    false
}

/// The sum of the events with a date within a window, where it is within 64 bits.
fn included_usage(
    events: &Vec<UsageEvent>,
    timezone: &Timezone,
    since: Option<CivilDate>,
    until: Option<CivilDate>,
) -> (usage: Option<Usage>)
    ensures
        usage is Some <==> sums::usage_where(
            types::event_models(events@),
            sessions::of_window(timezone@, since, until),
        ).fits(),
        usage matches Some(usage) ==> usage@ == sums::usage_where(
            types::event_models(events@),
            sessions::of_window(timezone@, since, until),
        ),
{
    let ghost all = types::event_models(events@);
    let ghost keep = sessions::of_window(timezone@, since, until);
    let mut usage = Usage::default();
    proof {
        assert(all.take(0) =~= Seq::<EventModel>::empty());
    }
    let mut i: usize = 0;
    while i < events.len()
        invariant
            i <= events@.len(),
            all == types::event_models(events@),
            keep == sessions::of_window(timezone@, since, until),
            usage@ == sums::usage_where(all.take(i as int), keep),
        decreases events@.len() - i,
    {
        let event = &events[i];
        proof {
            assert(all[i as int] == event@);
            sums::lemma_usage_pushed(all.take(i as int), event@, keep);
            assert(all.take(i + 1) =~= all.take(i as int).push(event@));
            sums::lemma_usage_grows(all, i + 1, keep);
        }
        if is_included(event, timezone, since, until) {
            if !usage.can_add(&event.usage) {
                return None;
            }
            usage.add_assign(&event.usage);
        }
        i = i + 1;
    }
    proof {
        assert(all.take(i as int) =~= all);
    }
    Some(usage)
}

/// What a warning about times that were written anew says after the number of sessions.
pub const REWRITTEN_WARNING: &'static str =
    " histories have rewritten event timestamps; daily/monthly dates reflect stored timestamps and cannot establish original usage dates. See JSON diagnostics.rewritten_timestamp_sessions.";

/// What a warning about unresolved usage says after the number of sessions.
pub const UNRESOLVED_WARNING: &'static str =
    " child histories contain checkpoints or prefixes of unresolved ownership; excluded from totals. See JSON diagnostics.unresolved_history_usage. These snapshots may overlap and must not be summed as new usage.";

/// The text of a warning about a number of sessions.
pub open spec fn warning_text(n: nat, message: Seq<char>) -> Seq<char> {
    "warning: "@ + text::digits(n) + message
}

/// A warning about a number of sessions, if there are any.
fn warning(n: usize, message: &str) -> (text: Option<String>)
    ensures
        text is Some <==> n > 0,
        text matches Some(text) ==> text@ == warning_text(n as nat, message@),
{
    if n == 0 {
        return None;
    }
    let mut text = "warning: ".to_owned();
    text.append(text::decimal(n as u64).as_str());
    text.append(message);
    Some(text)
}

impl Diagnostics {
    /// What is doubtful about the histories within a window.
    pub fn from_sessions(
        histories: &[SessionHistory],
        timezone: &Timezone,
        since: Option<CivilDate>,
        until: Option<CivilDate>,
    ) -> (diagnostics: Diagnostics)
        requires
            unresolved_fits(
                history_models(histories@),
                sessions::of_window(timezone@, since, until),
            ),
        ensures
            text::texts(diagnostics.rewritten_timestamp_sessions@) == rewritten_paths(
                history_models(histories@),
                sessions::of_window(timezone@, since, until),
            ),
            unresolved_models(diagnostics.unresolved_history_usage@) == unresolved_sums(
                history_models(histories@),
                sessions::of_window(timezone@, since, until),
            ),
    {
        let ghost models = history_models(histories@);
        let ghost keep = sessions::of_window(timezone@, since, until);
        let mut diagnostics = Diagnostics::default();
        proof {
            assert(text::texts(diagnostics.rewritten_timestamp_sessions@) =~= Seq::<
                Seq<char>,
            >::empty());
            assert(unresolved_models(diagnostics.unresolved_history_usage@) =~= Seq::<
                UnresolvedModel,
            >::empty());
        }
        let mut i: usize = 0;
        while i < histories.len()
            invariant
                i <= histories@.len(),
                models == history_models(histories@),
                keep == sessions::of_window(timezone@, since, until),
                unresolved_fits(models, keep),
                text::texts(diagnostics.rewritten_timestamp_sessions@) == rewritten_paths(
                    models.take(i as int),
                    keep,
                ),
                unresolved_models(diagnostics.unresolved_history_usage@) == unresolved_sums(
                    models.take(i as int),
                    keep,
                ),
            decreases histories@.len() - i,
        {
            let history = &histories[i];
            proof {
                assert(models[i as int] == history@);
                assert(models.take(i + 1).drop_last() =~= models.take(i as int));
            }
            let doubtful = any_included(&history.unresolved_usage, timezone, since, until);
            let included = doubtful || any_included(&history.events, timezone, since, until);
            let unresolved: Option<Usage> = if doubtful {
                included_usage(&history.unresolved_usage, timezone, since, until)
            } else {
                None
            };
            diagnostics.record(history, included, unresolved);
            i = i + 1;
        }
        proof {
            assert(models.take(i as int) =~= models);
        }
        diagnostics
    }

    /// Takes in a history: whether any of its events counts, and the sum of its unresolved usage
    /// where any of that counts.
    pub fn record(&mut self, history: &SessionHistory, included: bool, unresolved: Option<Usage>)
        ensures
            text::texts(final(self).rewritten_timestamp_sessions@) == if
                history.has_rewritten_timestamps && included {
                text::texts(old(self).rewritten_timestamp_sessions@).push(history.session_path@)
            } else {
                text::texts(old(self).rewritten_timestamp_sessions@)
            },
            unresolved_models(final(self).unresolved_history_usage@) == match unresolved {
                Some(usage) => unresolved_models(old(self).unresolved_history_usage@).push(
                    UnresolvedModel { session_path: history.session_path@, usage: usage@ },
                ),
                None => unresolved_models(old(self).unresolved_history_usage@),
            },
    {
        let ghost before = *self;
        if history.has_rewritten_timestamps && included {
            self.rewritten_timestamp_sessions.push(history.session_path.clone());
            proof {
                assert(text::texts(self.rewritten_timestamp_sessions@) =~= text::texts(
                    before.rewritten_timestamp_sessions@,
                ).push(history.session_path@));
            }
        }
        if let Some(usage) = unresolved {
            self.unresolved_history_usage.push(
                UnresolvedUsage { session_path: history.session_path.clone(), usage },
            );
            proof {
                assert(unresolved_models(self.unresolved_history_usage@) =~= unresolved_models(
                    before.unresolved_history_usage@,
                ).push(UnresolvedModel { session_path: history.session_path@, usage: usage@ }));
            }
        }
    }

    /// What is doubtful about the histories within a window, where the sums of unresolved usage are
    /// within 64 bits.
    pub fn try_from_sessions(
        histories: &[SessionHistory],
        timezone: &Timezone,
        since: Option<CivilDate>,
        until: Option<CivilDate>,
    ) -> (diagnostics: Option<Diagnostics>)
        ensures
            diagnostics is Some <==> unresolved_fits(
                history_models(histories@),
                sessions::of_window(timezone@, since, until),
            ),
            diagnostics matches Some(diagnostics) ==> text::texts(
                diagnostics.rewritten_timestamp_sessions@,
            ) == rewritten_paths(
                history_models(histories@),
                sessions::of_window(timezone@, since, until),
            ) && unresolved_models(diagnostics.unresolved_history_usage@) == unresolved_sums(
                history_models(histories@),
                sessions::of_window(timezone@, since, until),
            ),
    {
        let ghost models = history_models(histories@);
        let ghost keep = sessions::of_window(timezone@, since, until);
        let mut i: usize = 0;
        while i < histories.len()
            invariant
                i <= histories@.len(),
                models == history_models(histories@),
                keep == sessions::of_window(timezone@, since, until),
                forall|k: int|
                    0 <= k < i ==> sums::usage_where(
                        (#[trigger] models[k]).unresolved_usage,
                        keep,
                    ).fits(),
            decreases histories@.len() - i,
        {
            let history = &histories[i];
            assert(models[i as int] == history@);
            if included_usage(&history.unresolved_usage, timezone, since, until).is_none() {
                return None;
            }
            i = i + 1;
        }
        Some(Diagnostics::from_sessions(histories, timezone, since, until))
    }

    /// The warning about sessions whose times were written anew, if there are any.
    pub fn rewritten_warning(&self) -> (text: Option<String>)
        ensures
            text is Some <==> self.rewritten_timestamp_sessions@.len() > 0,
            text matches Some(text) ==> text@ == warning_text(
                self.rewritten_timestamp_sessions@.len(),
                REWRITTEN_WARNING@,
            ),
    {
        warning(self.rewritten_timestamp_sessions.len(), REWRITTEN_WARNING)
    }

    /// The warning about sessions with unresolved usage, if there are any.
    pub fn unresolved_warning(&self) -> (text: Option<String>)
        ensures
            text is Some <==> self.unresolved_history_usage@.len() > 0,
            text matches Some(text) ==> text@ == warning_text(
                self.unresolved_history_usage@.len(),
                UNRESOLVED_WARNING@,
            ),
    {
        warning(self.unresolved_history_usage.len(), UNRESOLVED_WARNING)
    }
}

} // verus!
