//! Reading the usage of a session out of the lines of its log.

use crate::calendar;
use crate::calendar::{CivilDate, Timezone};
use crate::report;
use crate::report::{GroupBy, sums};
use crate::session_log::fork;
pub use crate::session_log::fork::DuplicateLineFilter;
use crate::session_log::fork::InheritedPrefixState;
use crate::session_log::wire;
use crate::session_log::wire::{
    EventPayload, JsonMember, LineEnvelope, LineKindHint, LinePayload, LogLine, RawUsage,
    SessionMetaPayload, TokenInfo, TurnContextPayload,
};
use crate::text;
use crate::types;
use crate::types::{
    EventModel, ReportRow, SessionModel, SessionSummary, Usage, UsageEvent,
};
use vstd::multiset::Multiset;
use vstd::prelude::*;

verus! {

/// The model of usage for which a session names none.
pub const UNKNOWN_MODEL: &'static str = "unknown";

/// What a session's log says of the session.
pub struct IdentityModel {
    pub session_id: Option<Seq<char>>,
    pub forked_from_id: Option<Seq<char>>,
    pub started_at_unix_ms: Option<i64>,
}

/// What a session's log says of the session: its name, the session that it was forked from, and
/// when it started.
#[derive(Debug, Clone, PartialEq, Eq)]
pub struct SessionFileIdentity {
    pub session_id: Option<String>,
    pub forked_from_id: Option<String>,
    pub started_at_unix_ms: Option<i64>,
}

impl View for SessionFileIdentity {
    type V = IdentityModel;

    open spec fn view(&self) -> IdentityModel {
        IdentityModel {
            session_id: types::optional_text(self.session_id),
            forked_from_id: types::optional_text(self.forked_from_id),
            started_at_unix_ms: self.started_at_unix_ms,
        }
    }
}

impl Default for SessionFileIdentity {
    fn default() -> (identity: SessionFileIdentity)
        ensures
            identity@ == (IdentityModel {
                session_id: None,
                forked_from_id: None,
                started_at_unix_ms: None,
            }),
    {
        SessionFileIdentity { session_id: None, forked_from_id: None, started_at_unix_ms: None }
    }
}

/// What a description says of a session that started at an instant.
pub open spec fn identity_in(meta: SessionMetaPayload, unix_ms: Option<i64>) -> IdentityModel {
    IdentityModel {
        session_id: wire::visible(meta.id),
        forked_from_id: wire::visible(meta.forked_from_id),
        started_at_unix_ms: unix_ms,
    }
}

/// What a description says of a session that started at an instant.
pub fn described_session(meta: &SessionMetaPayload, unix_ms: Option<i64>) -> (identity:
    SessionFileIdentity)
    ensures
        identity@ == identity_in(*meta, unix_ms),
{
    SessionFileIdentity {
        session_id: wire::non_empty(meta.id.clone()),
        forked_from_id: wire::non_empty(meta.forked_from_id.clone()),
        started_at_unix_ms: unix_ms,
    }
}

/// What a line says of the session, where it describes one.
pub open spec fn identity_of(line: LogLine) -> Option<IdentityModel> {
    let trimmed = wire::trimmed_line(line.bytes@);
    if trimmed.len() == 0 || wire::hint_of(trimmed) != LineKindHint::SessionMeta {
        None
    } else {
        match line.envelope {
            Some(envelope) => match envelope.payload {
                Some(LinePayload::SessionMeta(meta)) => if envelope.kind@ == "session_meta"@ {
                    Some(identity_in(meta, wire::instant(envelope.timestamp)))
                } else {
                    None
                },
                _ => None,
            },
            None => None,
        }
    }
}

/// What the first line that describes the session says of it; nothing where no line does.
pub open spec fn first_identity(lines: Seq<LogLine>) -> IdentityModel
    decreases lines.len(),
{
    if lines.len() == 0 {
        IdentityModel { session_id: None, forked_from_id: None, started_at_unix_ms: None }
    } else {
        match identity_of(lines[0]) {
            Some(identity) => identity,
            None => first_identity(lines.drop_first()),
        }
    }
}

/// What a line says of the session, where it describes one.
pub fn line_identity(line: &LogLine) -> (identity: Option<SessionFileIdentity>)
    ensures
        identity is Some <==> identity_of(*line) is Some,
        identity matches Some(identity) ==> identity_of(*line) == Some(identity@),
{
    let trimmed = wire::trim_ascii_whitespace(line.bytes.as_slice());
    if trimmed.len() == 0 || wire::line_kind_hint(trimmed) != LineKindHint::SessionMeta {
        return None;
    }
    match &line.envelope {
        Some(envelope) => {
            if !text::same_text(envelope.kind.as_str(), "session_meta") {
                return None;
            }
            match &envelope.payload {
                Some(LinePayload::SessionMeta(meta)) => Some(
                    described_session(meta, wire::optional_instant(&envelope.timestamp)),
                ),
                _ => None,
            }
        },
        None => None,
    }
}

/// What the first line that describes the session says of it; nothing where no line does.
pub fn read_session_file_identity(lines: &[LogLine]) -> (identity: SessionFileIdentity)
    ensures
        identity@ == first_identity(lines@),
{
    let mut i: usize = 0;
    proof {
        assert(lines@.skip(0) =~= lines@);
    }
    while i < lines.len()
        invariant
            i <= lines@.len(),
            first_identity(lines@) == first_identity(lines@.skip(i as int)),
        decreases lines@.len() - i,
    {
        proof {
            assert(lines@.skip(i as int)[0] == lines@[i as int]);
            assert(lines@.skip(i as int).drop_first() =~= lines@.skip(i + 1));
        }
        if let Some(identity) = line_identity(&lines[i]) {
            return identity;
        }
        i = i + 1;
    }
    SessionFileIdentity::default()
}

/// What is known of a session after some lines of its log.
pub struct ScanModel {
    pub directory: Option<Seq<char>>,
    pub current_model: Option<Seq<char>>,
    pub model_is_fallback: bool,
    pub previous_totals: Option<Usage>,
    pub prefix: InheritedPrefixState,
    pub filter: Option<Multiset<fork::LineKey>>,
    pub events: Seq<EventModel>,
}

/// What is known before the first line.
pub open spec fn scan_start(filter: Option<Multiset<fork::LineKey>>) -> ScanModel {
    ScanModel {
        directory: None,
        current_model: None,
        model_is_fallback: false,
        previous_totals: None,
        prefix: InheritedPrefixState::start(),
        filter,
        events: Seq::empty(),
    }
}

/// The value, or the one that there was before.
pub open spec fn or_before(
    value: Option<Seq<char>>,
    before: Option<Seq<char>>,
) -> Option<Seq<char>> {
    match value {
        Some(_) => value,
        None => before,
    }
}

/// What is known after a line that describes the session.
pub open spec fn after_meta_line(
    state: ScanModel,
    meta: SessionMetaPayload,
    unix_ms: Option<i64>,
) -> ScanModel {
    ScanModel {
        prefix: state.prefix.after_meta(meta, unix_ms),
        directory: if state.prefix.meta_is_embedded() {
            state.directory
        } else {
            or_before(wire::visible(meta.cwd), state.directory)
        },
        ..state
    }
}

/// What is known after a line that describes a turn.
pub open spec fn after_context_line(
    state: ScanModel,
    context: Option<TurnContextPayload>,
    unix_ms: Option<i64>,
) -> ScanModel {
    let next = ScanModel { prefix: state.prefix.after_other(unix_ms), ..state };
    match context {
        Some(context) => with_context(next, context),
        None => next,
    }
}

/// What is known when a turn is described: where it works, and with which model.
pub open spec fn with_context(state: ScanModel, context: TurnContextPayload) -> ScanModel {
    let named = wire::first_visible(seq![context.model, context.model_name]);
    ScanModel {
        directory: or_before(wire::visible(context.cwd), state.directory),
        current_model: or_before(named, state.current_model),
        model_is_fallback: if named is Some {
            false
        } else {
            state.model_is_fallback
        },
        ..state
    }
}

/// The counts since the start of the session that an event reports.
pub open spec fn reported_total(info: Option<TokenInfo>) -> Option<Usage> {
    match info {
        Some(info) => match info.total_token_usage {
            Some(raw) => Some(raw.normalized()),
            None => None,
        },
        None => None,
    }
}

/// The counts of the last request that an event reports.
pub open spec fn reported_last(info: Option<TokenInfo>) -> Option<Usage> {
    match info {
        Some(info) => match info.last_token_usage {
            Some(raw) => Some(raw.normalized()),
            None => None,
        },
        None => None,
    }
}

/// What an event says was used since the one before: the growth of the running totals where it
/// gives totals, else the counts of the last request.
pub open spec fn reported_usage(info: Option<TokenInfo>, previous: Option<Usage>) -> Option<Usage> {
    match reported_total(info) {
        Some(total) => Some(wire::usage_since(total, previous)),
        None => reported_last(info),
    }
}

/// The model that an event names.
pub open spec fn named_model(event: EventPayload) -> Option<Seq<char>> {
    let (model, model_name) = match event.info {
        Some(info) => (info.model, info.model_name),
        None => (None, None),
    };
    wire::first_visible(seq![event.model, event.model_name, model, model_name])
}

/// Whether an event repeats a line of the parent session.
pub open spec fn is_repeated(
    filter: Option<Multiset<fork::LineKey>>,
    key: Option<fork::LineKey>,
) -> bool {
    &&& filter matches Some(keys)
    &&& key matches Some(key)
    &&& keys.contains(key)
}

/// The lines of the parent session that are still to be repeated after a line.
pub open spec fn filter_after(
    filter: Option<Multiset<fork::LineKey>>,
    key: Option<fork::LineKey>,
) -> Option<Multiset<fork::LineKey>> {
    if is_repeated(filter, key) {
        Some(filter->0.remove(key->0))
    } else {
        filter
    }
}

/// What is known after an event is counted: it goes to the model that it names, else to the
/// session's latest one, else to an unknown one.
pub open spec fn counted(
    state: ScanModel,
    event: EventPayload,
    unix_ms: i64,
    usage: Usage,
) -> ScanModel {
    let named = named_model(event);
    let model = match named {
        Some(model) => model,
        None => match state.current_model {
            Some(model) => model,
            None => UNKNOWN_MODEL@,
        },
    };
    let is_fallback = named is None && (state.current_model is None || state.model_is_fallback);
    ScanModel {
        current_model: Some(model),
        model_is_fallback: is_fallback,
        events: state.events.push(
            EventModel {
                timestamp_unix_ms: unix_ms,
                model,
                is_fallback_model: is_fallback,
                usage,
            },
        ),
        ..state
    }
}

/// What is known after an event that counts tokens.
pub open spec fn after_count_line(
    state: ScanModel,
    event: EventPayload,
    unix_ms: i64,
    key: Option<fork::LineKey>,
) -> ScanModel {
    let skipped = state.prefix.skips_at(Some(unix_ms)) || is_repeated(state.filter, key);
    let total = reported_total(event.info);
    let next = ScanModel {
        prefix: state.prefix.after_count(Some(unix_ms)),
        filter: filter_after(state.filter, key),
        previous_totals: if total is Some {
            total
        } else {
            state.previous_totals
        },
        ..state
    };
    match reported_usage(event.info, state.previous_totals) {
        Some(usage) => if skipped || usage == Usage::none() {
            next
        } else {
            counted(next, event, unix_ms, usage)
        },
        None => next,
    }
}

/// What is known after an event, at an instant, on a line with a key.
pub open spec fn after_event_line(
    state: ScanModel,
    event: EventPayload,
    unix_ms: i64,
    key: Option<fork::LineKey>,
) -> ScanModel {
    if event.kind@ == "token_count"@ {
        after_count_line(state, event, unix_ms, key)
    } else {
        ScanModel { prefix: state.prefix.after_other(Some(unix_ms)), ..state }
    }
}

/// What is known after a line with an envelope.
pub open spec fn after_envelope(
    state: ScanModel,
    trimmed: Seq<u8>,
    envelope: LineEnvelope,
) -> ScanModel {
    let unix_ms = wire::instant(envelope.timestamp);
    match wire::form_of(envelope.kind@) {
        Some(wire::PayloadForm::SessionMeta) => match envelope.payload {
            Some(LinePayload::SessionMeta(meta)) => after_meta_line(state, meta, unix_ms),
            _ => state,
        },
        Some(wire::PayloadForm::TurnContext) => match envelope.payload {
            Some(LinePayload::TurnContext(context)) => after_context_line(
                state,
                Some(context),
                unix_ms,
            ),
            _ => after_context_line(state, None, unix_ms),
        },
        Some(wire::PayloadForm::Event) => match (unix_ms, envelope.payload) {
            (Some(ms), Some(LinePayload::Event(event))) => after_event_line(
                state,
                event,
                ms,
                wire::line_key(trimmed),
            ),
            _ => state,
        },
        None => state,
    }
}

/// Whether the bytes of a line are worth reading.
pub open spec fn is_relevant(trimmed: Seq<u8>) -> bool {
    &&& trimmed.len() > 0
    &&& wire::hint_of(trimmed) != LineKindHint::Other
    &&& vstd::utf8::valid_utf8(trimmed)
}

/// What is known after a line.
pub open spec fn after_line(state: ScanModel, line: LogLine) -> ScanModel {
    let trimmed = wire::trimmed_line(line.bytes@);
    match line.envelope {
        Some(envelope) => if is_relevant(trimmed) {
            after_envelope(state, trimmed, envelope)
        } else {
            state
        },
        None => state,
    }
}

/// What is known after all lines.
pub open spec fn after_lines(state: ScanModel, lines: Seq<LogLine>) -> ScanModel
    decreases lines.len(),
{
    if lines.len() == 0 {
        state
    } else {
        after_line(after_lines(state, lines.drop_last()), lines.last())
    }
}

/// Whether the totals of an event can be told.
pub open spec fn info_has_totals(info: Option<TokenInfo>) -> bool {
    info matches Some(info) ==> {
        &&& info.last_token_usage matches Some(raw) ==> raw.has_total()
        &&& info.total_token_usage matches Some(raw) ==> raw.has_total()
    }
}

/// Whether the counts of an envelope are within 64 bits, where it is one whose counts are read.
pub open spec fn envelope_counts_fit(envelope: LineEnvelope) -> bool {
    match envelope.payload {
        Some(LinePayload::Event(event)) => {
            envelope.kind@ == "event_msg"@ && wire::instant(envelope.timestamp) is Some
                && event.kind@ == "token_count"@ ==> info_has_totals(event.info)
        },
        _ => true,
    }
}

/// Whether a line's counts are within 64 bits, where it is a line whose counts are read.
pub open spec fn counts_fit(line: LogLine) -> bool {
    match line.envelope {
        Some(envelope) => is_relevant(wire::trimmed_line(line.bytes@)) ==> envelope_counts_fit(
            envelope,
        ),
        None => true,
    }
}

/// Whether an instant lies in the calendar's years.
pub open spec fn in_calendar(unix_ms: i64) -> bool {
    calendar::FIRST_INSTANT <= unix_ms <= calendar::LAST_INSTANT
}

/// Whether every event lies in the calendar's years.
pub open spec fn all_in_calendar(events: Seq<EventModel>) -> bool {
    forall|i: int| 0 <= i < events.len() ==> in_calendar((#[trigger] events[i]).timestamp_unix_ms)
}

/// The texts of an optional key.
pub open spec fn key_texts(key: Option<Vec<JsonMember>>) -> Option<fork::LineKey> {
    match key {
        Some(key) => Some(wire::member_texts(key@)),
        None => None,
    }
}

/// The keys of an optional filter.
pub open spec fn filter_keys(filter: Option<DuplicateLineFilter>) -> Option<
    Multiset<fork::LineKey>,
> {
    match filter {
        Some(filter) => Some(filter@),
        None => None,
    }
}

/// A session that is being read.
pub struct SessionScan {
    directory: Option<String>,
    current_model: Option<String>,
    current_model_is_fallback: bool,
    previous_totals: Option<Usage>,
    inherited_prefix: InheritedPrefixState,
    duplicate_filter: Option<DuplicateLineFilter>,
    events: Vec<UsageEvent>,
}

impl View for SessionScan {
    type V = ScanModel;

    closed spec fn view(&self) -> ScanModel {
        ScanModel {
            directory: types::optional_text(self.directory),
            current_model: types::optional_text(self.current_model),
            model_is_fallback: self.current_model_is_fallback,
            previous_totals: self.previous_totals,
            prefix: self.inherited_prefix,
            filter: filter_keys(self.duplicate_filter),
            events: types::event_models(self.events@),
        }
    }
}

fn normalized(raw: Option<RawUsage>) -> (usage: Option<Usage>)
    requires
        raw matches Some(raw) ==> raw.has_total(),
    ensures
        usage == match raw {
            Some(raw) => Some(raw.normalized()),
            None => None,
        },
{
    match raw {
        Some(raw) => Some(raw.normalize()),
        None => None,
    }
}

impl SessionScan {
    /// A session of which no line has been read.
    pub fn new(duplicate_filter: Option<DuplicateLineFilter>) -> (scan: SessionScan)
        ensures
            scan@ == scan_start(filter_keys(duplicate_filter)),
    {
        let scan = SessionScan {
            directory: None,
            current_model: None,
            current_model_is_fallback: false,
            previous_totals: None,
            inherited_prefix: InheritedPrefixState::new(),
            duplicate_filter,
            events: Vec::new(),
        };
        proof {
            assert(scan@.events =~= Seq::<EventModel>::empty());
        }
        scan
    }

    /// Takes in the next line of the log.
    pub fn observe_line(&mut self, line: &LogLine)
        requires
            counts_fit(*line),
        ensures
            final(self)@ == after_line(old(self)@, *line),
            all_in_calendar(old(self)@.events) ==> all_in_calendar(final(self)@.events),
    {
        let trimmed = wire::trim_ascii_whitespace(line.bytes.as_slice());
        if trimmed.len() == 0 {
            return;
        }
        if wire::line_kind_hint(trimmed) == LineKindHint::Other {
            return;
        }
        if !wire::is_utf8(trimmed) {
            return;
        }
        if let Some(envelope) = &line.envelope {
            self.observe_envelope(trimmed, envelope);
        }
    }

    fn observe_envelope(&mut self, trimmed: &[u8], envelope: &LineEnvelope)
        requires
            envelope_counts_fit(*envelope),
        ensures
            final(self)@ == after_envelope(old(self)@, trimmed@, *envelope),
            all_in_calendar(old(self)@.events) ==> all_in_calendar(final(self)@.events),
    {
        match wire::payload_form(envelope.kind.as_str()) {
            Some(wire::PayloadForm::SessionMeta) => {
                if let Some(LinePayload::SessionMeta(meta)) = &envelope.payload {
                    self.observe_meta(meta, wire::optional_instant(&envelope.timestamp));
                }
            },
            Some(wire::PayloadForm::TurnContext) => {
                let unix_ms = wire::optional_instant(&envelope.timestamp);
                match &envelope.payload {
                    Some(LinePayload::TurnContext(context)) => {
                        self.observe_context(Some(context), unix_ms);
                    },
                    _ => {
                        self.observe_context(None, unix_ms);
                    },
                }
            },
            Some(wire::PayloadForm::Event) => {
                if let Some(unix_ms) = wire::optional_instant(&envelope.timestamp) {
                    if let Some(LinePayload::Event(event)) = &envelope.payload {
                        let key = if self.duplicate_filter.is_some() {
                            wire::normalized_line_key(trimmed)
                        } else {
                            None
                        };
                        self.observe_event(event, unix_ms, key);
                    }
                }
            },
            None => {},
        }
    }

    /// Takes in a description of the session, at an instant where it gives one.
    pub fn observe_meta(&mut self, meta: &SessionMetaPayload, unix_ms: Option<i64>)
        ensures
            final(self)@ == after_meta_line(old(self)@, *meta, unix_ms),
    {
        let embedded = self.inherited_prefix.observe_session_meta(meta, unix_ms);
        if !embedded {
            if let Some(cwd) = wire::non_empty(meta.cwd.clone()) {
                self.directory = Some(cwd);
            }
        }
    }

    /// Takes in a description of a turn, at an instant where it gives one.
    pub fn observe_context(&mut self, context: Option<&TurnContextPayload>, unix_ms: Option<i64>)
        ensures
            final(self)@ == after_context_line(
                old(self)@,
                match context {
                    Some(context) => Some(*context),
                    None => None,
                },
                unix_ms,
            ),
    {
        self.inherited_prefix.observe_non_token_line(unix_ms);
        if let Some(context) = context {
            if let Some(cwd) = wire::non_empty(context.cwd.clone()) {
                self.directory = Some(cwd);
            }
            let names = [context.model.clone(), context.model_name.clone()];
            if let Some(model) = wire::first_non_empty(&names) {
                self.current_model = Some(model);
                self.current_model_is_fallback = false;
            }
        }
    }

    /// Takes in an event, at an instant, on a line with a key where it has one.
    pub fn observe_event(
        &mut self,
        event: &EventPayload,
        unix_ms: i64,
        key: Option<Vec<JsonMember>>,
    )
        requires
            event.kind@ == "token_count"@ ==> info_has_totals(event.info),
        ensures
            final(self)@ == after_event_line(old(self)@, *event, unix_ms, key_texts(key)),
    {
        if !text::same_text(event.kind.as_str(), "token_count") {
            self.inherited_prefix.observe_non_token_line(Some(unix_ms));
            return;
        }
        let inherited = self.inherited_prefix.observe_token_count(Some(unix_ms));
        let repeated = match (&mut self.duplicate_filter, key) {
            (Some(filter), Some(key)) => filter.consume_key(&key),
            _ => false,
        };
        let last: Option<Usage> = match &event.info {
            Some(info) => normalized(info.last_token_usage),
            None => None,
        };
        let total: Option<Usage> = match &event.info {
            Some(info) => normalized(info.total_token_usage),
            None => None,
        };
        let usage: Option<Usage> = match total {
            Some(total) => Some(wire::subtract_usage(total, self.previous_totals)),
            None => last,
        };
        if total.is_some() {
            self.previous_totals = total;
        }
        if let Some(usage) = usage {
            if !repeated && !inherited && !usage.is_none() {
                self.count(event, unix_ms, usage);
            }
        }
    }

    fn count(&mut self, event: &EventPayload, unix_ms: i64, usage: Usage)
        ensures
            final(self)@ == counted(old(self)@, *event, unix_ms, usage),
    {
        let (model, model_name) = match &event.info {
            Some(info) => (info.model.clone(), info.model_name.clone()),
            None => (None, None),
        };
        let names = [event.model.clone(), event.model_name.clone(), model, model_name];
        let named = wire::first_non_empty(&names);
        let mut is_fallback_model = false;
        let model: String = match named {
            Some(model) => {
                self.current_model_is_fallback = false;
                model
            },
            None => match self.current_model.clone() {
                Some(model) => {
                    is_fallback_model = self.current_model_is_fallback;
                    model
                },
                None => {
                    is_fallback_model = true;
                    self.current_model_is_fallback = true;
                    UNKNOWN_MODEL.to_owned()
                },
            },
        };
        self.current_model = Some(model.clone());
        let event = UsageEvent { timestamp_unix_ms: unix_ms, model, is_fallback_model, usage };
        let ghost before = self.events@;
        let ghost counted_event = event@;
        self.events.push(event);
        proof {
            assert(types::event_models(self.events@) =~= types::event_models(before).push(
                counted_event,
            ));
        }
    }

    /// The session as far as its log has been read.
    pub fn into_summary(self, session_path: String) -> (summary: SessionSummary)
        ensures
            summary@ == summary_of(session_path@, self@),
    {
        proof {
            reveal_strlit(".jsonl");
        }
        SessionSummary {
            session_id: text::trim_end_matches(session_path.as_str(), wire::LOG_SUFFIX),
            session_path,
            directory: self.directory,
            events: self.events,
        }
    }
}

/// The summary of a session whose log stands at a path.
pub open spec fn summary_of(path: Seq<char>, state: ScanModel) -> SessionModel {
    SessionModel {
        session_id: text::without_suffixes(path, wire::LOG_SUFFIX@),
        session_path: path,
        directory: state.directory,
        events: state.events,
    }
}

/// Reads a session from the lines of its log, given the path of the log below the directory of all
/// logs.
pub fn parse_session_file(relative_path: &str, lines: &[LogLine]) -> (summary: SessionSummary)
    requires
        forall|i: int| 0 <= i < lines@.len() ==> counts_fit(#[trigger] lines@[i]),
    ensures
        summary@ == summary_of(text::slashed(relative_path@), after_lines(scan_start(None), lines@)),
        all_in_calendar(summary@.events),
{
    parse_session_file_with_duplicate_filter(relative_path, lines, None)
}

/// Reads a session from the lines of its log, and leaves out usage that the filter's lines count
/// already.
pub fn parse_session_file_with_duplicate_filter(
    relative_path: &str,
    lines: &[LogLine],
    duplicate_filter: Option<DuplicateLineFilter>,
) -> (summary: SessionSummary)
    requires
        forall|i: int| 0 <= i < lines@.len() ==> counts_fit(#[trigger] lines@[i]),
    ensures
        summary@ == summary_of(
            text::slashed(relative_path@),
            after_lines(scan_start(filter_keys(duplicate_filter)), lines@),
        ),
        all_in_calendar(summary@.events),
{
    let ghost start = scan_start(filter_keys(duplicate_filter));
    let mut scan = SessionScan::new(duplicate_filter);
    let mut i: usize = 0;
    while i < lines.len()
        invariant
            i <= lines@.len(),
            forall|j: int| 0 <= j < lines@.len() ==> counts_fit(#[trigger] lines@[j]),
            scan@ == after_lines(start, lines@.take(i as int)),
            all_in_calendar(scan@.events),
        decreases lines@.len() - i,
    {
        proof {
            assert(lines@.take(i + 1).drop_last() =~= lines@.take(i as int));
        }
        scan.observe_line(&lines[i]);
        i = i + 1;
    }
    proof {
        assert(lines@.take(lines@.len() as int) =~= lines@);
    }
    scan.into_summary(text::slash_separated(relative_path))
}

/// Whether a line's counts are within 64 bits, where it is a line whose counts are read.
pub fn line_counts_fit(line: &LogLine) -> (fit: bool)
    ensures
        fit == counts_fit(*line),
{
    match &line.envelope {
        Some(envelope) => match &envelope.payload {
            Some(LinePayload::Event(event)) => {
                let trimmed = wire::trim_ascii_whitespace(line.bytes.as_slice());
                if trimmed.len() == 0 || wire::line_kind_hint(trimmed) == LineKindHint::Other
                    || !wire::is_utf8(trimmed) || !text::same_text(
                    envelope.kind.as_str(),
                    "event_msg",
                ) || wire::optional_instant(&envelope.timestamp).is_none() || !text::same_text(
                    event.kind.as_str(),
                    "token_count",
                ) {
                    return true;
                }
                match &event.info {
                    Some(info) => {
                        let last_fits = match &info.last_token_usage {
                            Some(raw) => raw.total_fits(),
                            None => true,
                        };
                        let total_fits = match &info.total_token_usage {
                            Some(raw) => raw.total_fits(),
                            None => true,
                        };
                        last_fits && total_fits
                    },
                    None => true,
                }
            },
            _ => true,
        },
        None => true,
    }
}

/// Reads a session from the lines of its log where the counts of every line are within 64 bits.
pub fn try_parse_session_file(
    relative_path: &str,
    lines: &[LogLine],
    duplicate_filter: Option<DuplicateLineFilter>,
) -> (summary: Option<SessionSummary>)
    ensures
        summary is Some <==> forall|i: int|
            0 <= i < lines@.len() ==> counts_fit(#[trigger] lines@[i]),
        summary matches Some(summary) ==> summary@ == summary_of(
            text::slashed(relative_path@),
            after_lines(scan_start(filter_keys(duplicate_filter)), lines@),
        ) && all_in_calendar(summary@.events),
{
    let mut i: usize = 0;
    while i < lines.len()
        invariant
            i <= lines@.len(),
            forall|j: int| 0 <= j < i ==> counts_fit(#[trigger] lines@[j]),
        decreases lines@.len() - i,
    {
        if !line_counts_fit(&lines[i]) {
            return None;
        }
        i = i + 1;
    }
    match duplicate_filter {
        Some(_) => Some(
            parse_session_file_with_duplicate_filter(relative_path, lines, duplicate_filter),
        ),
        None => Some(parse_session_file(relative_path, lines)),
    }
}

/// The events that a log tells of.
pub open spec fn events_of(
    lines: Seq<LogLine>,
    filter: Option<Multiset<fork::LineKey>>,
) -> Seq<EventModel> {
    after_lines(scan_start(filter), lines).events
}

/// The usage in a session's log by period.
pub fn aggregate_session_file(
    relative_path: &str,
    lines: &[LogLine],
    timezone: &Timezone,
    group_by: GroupBy,
    since: Option<CivilDate>,
    until: Option<CivilDate>,
) -> (rows: Vec<ReportRow>)
    requires
        forall|i: int| 0 <= i < lines@.len() ==> counts_fit(#[trigger] lines@[i]),
        report::report_fits(
            events_of(lines@, None),
            timezone@,
            report::grouping(group_by, since, until, false),
        ),
    ensures
        report::lists_table(
            rows@,
            report::report_of(
                events_of(lines@, None),
                timezone@,
                report::grouping(group_by, since, until, false),
            ),
        ),
{
    aggregate_session_file_with_duplicate_filter(
        relative_path,
        lines,
        timezone,
        group_by,
        since,
        until,
        None,
    )
}

proof fn lemma_events_of_one(session: SessionModel)
    ensures
        report::all_events(seq![session]) == session.events,
{
    reveal_with_fuel(report::all_events, 2);
    assert(seq![session].drop_last() =~= Seq::<SessionModel>::empty());
    assert(Seq::<EventModel>::empty() + session.events =~= session.events);
}

/// The usage in a session's log by period, without what the filter's lines count already.
pub fn aggregate_session_file_with_duplicate_filter(
    relative_path: &str,
    lines: &[LogLine],
    timezone: &Timezone,
    group_by: GroupBy,
    since: Option<CivilDate>,
    until: Option<CivilDate>,
    duplicate_filter: Option<DuplicateLineFilter>,
) -> (rows: Vec<ReportRow>)
    requires
        forall|i: int| 0 <= i < lines@.len() ==> counts_fit(#[trigger] lines@[i]),
        report::report_fits(
            events_of(lines@, filter_keys(duplicate_filter)),
            timezone@,
            report::grouping(group_by, since, until, false),
        ),
    ensures
        report::lists_table(
            rows@,
            report::report_of(
                events_of(lines@, filter_keys(duplicate_filter)),
                timezone@,
                report::grouping(group_by, since, until, false),
            ),
        ),
{
    let session = parse_session_file_with_duplicate_filter(relative_path, lines, duplicate_filter);
    let ghost model = session@;
    let mut sessions: Vec<SessionSummary> = Vec::new();
    sessions.push(session);
    proof {
        assert(report::session_models(sessions@) =~= seq![model]);
        lemma_events_of_one(model);
    }
    report::aggregate_usage(sessions.as_slice(), timezone, group_by, since, until, false)
}

/// Adds counts that a log gives to a sum, where they can be told and the sum stays within 64 bits;
/// tells whether they could be added.
fn add_counts(sum: &mut Usage, raw: Option<RawUsage>) -> (added: bool)
    ensures
        added ==> (raw matches Some(raw) ==> raw.has_total()),
        added ==> final(sum)@ == match raw {
            Some(raw) => old(sum)@.plus(raw.normalized()@),
            None => old(sum)@,
        },
{
    match raw {
        Some(raw) => {
            if !raw.total_fits() {
                return false;
            }
            let usage = raw.normalize();
            if !sum.can_add(&usage) {
                return false;
            }
            sum.add_assign(&usage);
            true
        },
        None => true,
    }
}

/// Adds all counts that a line gives to a sum, where they can be told and the sum stays within 64
/// bits; tells whether they could be added. If so, the line counts no more tokens than were added.
fn add_line_counts(sum: &mut Usage, line: &LogLine) -> (added: bool)
    ensures
        added ==> counts_fit(*line),
        added ==> forall|state: ScanModel|
            sums::all_usage(state.events).within(old(sum)@) ==> sums::all_usage(
                (#[trigger] after_line(state, *line)).events,
            ).within(final(sum)@),
{
    let (last, total) = match &line.envelope {
        Some(envelope) => match &envelope.payload {
            Some(LinePayload::Event(event)) => match &event.info {
                Some(info) => (info.last_token_usage, info.total_token_usage),
                None => (None, None),
            },
            _ => (None, None),
        },
        None => (None, None),
    };
    let added = add_counts(sum, last) && add_counts(sum, total);
    proof {
        assert forall|state: ScanModel|
            added && sums::all_usage(state.events).within(old(sum)@) implies sums::all_usage(
            (#[trigger] after_line(state, *line)).events,
        ).within(sum@) by {
            let after = after_line(state, *line).events;
            if after != state.events {
                sums::lemma_usage_pushed(state.events, after.last(), sums::every());
            }
        }
    }
    added
}

/// Whether all counts that the lines of a log give add up to numbers of 64 bits. If so, its events
/// do as well.
fn all_counts_fit(lines: &[LogLine]) -> (fit: bool)
    ensures
        fit ==> forall|i: int| 0 <= i < lines@.len() ==> counts_fit(#[trigger] lines@[i]),
        fit ==> forall|filter: Option<Multiset<fork::LineKey>>|
            sums::all_usage(#[trigger] events_of(lines@, filter)).fits(),
{
    let mut sum = Usage::default();
    let mut i: usize = 0;
    while i < lines.len()
        invariant
            i <= lines@.len(),
            forall|j: int| 0 <= j < i ==> counts_fit(#[trigger] lines@[j]),
            forall|filter: Option<Multiset<fork::LineKey>>|
                sums::all_usage(#[trigger] events_of(lines@.take(i as int), filter)).within(sum@),
        decreases lines@.len() - i,
    {
        let ghost before = lines@.take(i as int);
        if !add_line_counts(&mut sum, &lines[i]) {
            return false;
        }
        proof {
            assert(lines@.take(i + 1).drop_last() =~= before);
            assert forall|filter: Option<Multiset<fork::LineKey>>|
                sums::all_usage(#[trigger] events_of(lines@.take(i + 1), filter)).within(sum@) by {
                let state = after_lines(scan_start(filter), before);
                assert(events_of(before, filter) == state.events);
                assert(events_of(lines@.take(i + 1), filter) == after_line(
                    state,
                    lines@[i as int],
                ).events);
            }
        }
        i = i + 1;
    }
    proof {
        assert(lines@.take(i as int) =~= lines@);
    }
    true
}

/// The usage in a session's log by period, where the counts of every line and of every row are
/// within 64 bits.
pub fn try_aggregate_session_file(
    relative_path: &str,
    lines: &[LogLine],
    timezone: &Timezone,
    group_by: GroupBy,
    since: Option<CivilDate>,
    until: Option<CivilDate>,
    duplicate_filter: Option<DuplicateLineFilter>,
) -> (rows: Option<Vec<ReportRow>>)
    ensures
        rows is Some <==> (forall|i: int|
            0 <= i < lines@.len() ==> counts_fit(#[trigger] lines@[i])) && report::report_fits(
            events_of(lines@, filter_keys(duplicate_filter)),
            timezone@,
            report::grouping(group_by, since, until, false),
        ),
        rows matches Some(rows) ==> report::lists_table(
            rows@,
            report::report_of(
                events_of(lines@, filter_keys(duplicate_filter)),
                timezone@,
                report::grouping(group_by, since, until, false),
            ),
        ),
{
    let ghost events = events_of(lines@, filter_keys(duplicate_filter));
    // Where the sum of everything is small enough, no row has to be watched.
    if all_counts_fit(lines) {
        proof {
            assert(sums::all_usage(events).fits());
            report::lemma_all_fit(
                events,
                timezone@,
                report::grouping(group_by, since, until, false),
            );
        }
        return match duplicate_filter {
            Some(_) => Some(
                aggregate_session_file_with_duplicate_filter(
                    relative_path,
                    lines,
                    timezone,
                    group_by,
                    since,
                    until,
                    duplicate_filter,
                ),
            ),
            None => Some(
                aggregate_session_file(relative_path, lines, timezone, group_by, since, until),
            ),
        };
    }
    let session = match try_parse_session_file(relative_path, lines, duplicate_filter) {
        Some(session) => session,
        None => {
            return None;
        },
    };
    let ghost model = session@;
    let mut sessions: Vec<SessionSummary> = Vec::new();
    sessions.push(session);
    proof {
        assert(report::session_models(sessions@) =~= seq![model]);
        lemma_events_of_one(model);
    }
    report::try_aggregate_usage(sessions.as_slice(), timezone, group_by, since, until, false)
}

} // verus!
