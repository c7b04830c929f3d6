//! What each kind of line tells of a session.

use crate::session_log::fork::{DuplicateLineFilter, InheritedPrefixState};
use crate::session_log::parser;
use crate::session_log::parser::{ScanModel, SessionScan};
use crate::session_log::wire;
use crate::session_log::wire::{
    EventPayload, JsonMember, LineEnvelope, LinePayload, LogLine, SessionMetaPayload,
    TurnContextPayload,
};
use crate::session_log::wire_laws;
use crate::text;
use crate::types::Usage;
use vstd::prelude::*;

verus! {

/// Whether a line is one that is read: its bytes are text and say that it is an event, a turn or the
/// description of a session.
pub open spec fn is_read(line: LogLine) -> bool {
    let bytes = wire::trimmed_line(line.bytes@);
    &&& vstd::utf8::valid_utf8(bytes)
    &&& wire_laws::hold(bytes, "\"type\":\"event_msg\""@) || wire_laws::hold(
        bytes,
        "\"type\":\"turn_context\""@,
    ) || wire_laws::hold(bytes, "\"type\":\"session_meta\""@)
}

pub(crate) proof fn lemma_is_read(line: LogLine)
    ensures
        is_read(line) == parser::is_relevant(wire::trimmed_line(line.bytes@)),
{
    let bytes = wire::trimmed_line(line.bytes@);
    wire_laws::lemma_hold(bytes, "\"type\":\"event_msg\""@);
    wire_laws::lemma_hold(bytes, "\"type\":\"turn_context\""@);
    wire_laws::lemma_hold(bytes, "\"type\":\"session_meta\""@);
    reveal_strlit("\"type\":\"event_msg\"");
    reveal_strlit("\"type\":\"turn_context\"");
    reveal_strlit("\"type\":\"session_meta\"");
    lemma_bytes_of_some("\"type\":\"event_msg\""@);
    lemma_bytes_of_some("\"type\":\"turn_context\""@);
    lemma_bytes_of_some("\"type\":\"session_meta\""@);
}

proof fn lemma_bytes_of_some(chars: Seq<char>)
    requires
        chars.len() > 0,
    ensures
        vstd::utf8::encode_utf8(chars).len() > 0,
{
    reveal_with_fuel(vstd::utf8::encode_utf8, 2);
}

/// A line that is not read, or that holds no envelope, changes nothing.
pub proof fn lemma_unread_lines(scan: &mut SessionScan, line: &LogLine)
    requires
        call_ensures(SessionScan::observe_line, (scan, line), ()),
        !is_read(*line) || line.envelope is None,
    ensures
        final(scan)@ == old(scan)@,
{
    lemma_is_read(*line);
}

/// The description of a session is taken from a line of that kind alone; one without a description
/// changes nothing.
pub proof fn lemma_lines_of_descriptions(
    scan: &mut SessionScan,
    line: &LogLine,
    envelope: LineEnvelope,
)
    requires
        call_ensures(SessionScan::observe_line, (scan, line), ()),
        is_read(*line),
        line.envelope == Some(envelope),
        envelope.kind@ == "session_meta"@,
    ensures
        envelope.payload matches Some(LinePayload::SessionMeta(meta)) ==> final(scan)@
            == parser::after_meta_line(old(scan)@, meta, wire::instant(envelope.timestamp)),
        !(envelope.payload matches Some(LinePayload::SessionMeta(_))) ==> final(scan)@
            == old(scan)@,
{
    lemma_is_read(*line);
}

/// A turn is taken from a line of that kind alone; one without a context only takes time.
pub proof fn lemma_lines_of_turns(
    scan: &mut SessionScan,
    line: &LogLine,
    envelope: LineEnvelope,
)
    requires
        call_ensures(SessionScan::observe_line, (scan, line), ()),
        is_read(*line),
        line.envelope == Some(envelope),
        envelope.kind@ == "turn_context"@,
    ensures
        envelope.payload matches Some(LinePayload::TurnContext(context)) ==> final(scan)@
            == parser::after_context_line(
            old(scan)@,
            Some(context),
            wire::instant(envelope.timestamp),
        ),
        !(envelope.payload matches Some(LinePayload::TurnContext(_))) ==> final(scan)@
            == parser::after_context_line(old(scan)@, None, wire::instant(envelope.timestamp)),
{
    lemma_is_read(*line);
    reveal_strlit("session_meta");
    reveal_strlit("turn_context");
    assert("session_meta"@[0] == 's');
    assert("turn_context"@[0] == 't');
}

/// An event is taken from a line of that kind alone, and only where its instant is known.
pub proof fn lemma_lines_of_events(
    scan: &mut SessionScan,
    line: &LogLine,
    envelope: LineEnvelope,
)
    requires
        call_ensures(SessionScan::observe_line, (scan, line), ()),
        is_read(*line),
        line.envelope == Some(envelope),
        envelope.kind@ == "event_msg"@,
    ensures
        envelope.payload matches Some(LinePayload::Event(event)) ==> (wire::instant(
            envelope.timestamp,
        ) matches Some(ms) ==> final(scan)@ == parser::after_event_line(
            old(scan)@,
            event,
            ms,
            wire::line_key(wire::trimmed_line(line.bytes@)),
        )),
        !(envelope.payload matches Some(LinePayload::Event(_))) || wire::instant(
            envelope.timestamp,
        ) is None ==> final(scan)@ == old(scan)@,
{
    lemma_is_read(*line);
    reveal_strlit("session_meta");
    reveal_strlit("turn_context");
    reveal_strlit("event_msg");
    assert("session_meta"@[0] == 's');
    assert("turn_context"@[0] == 't');
    assert("event_msg"@[0] == 'e');
}

/// A line of any other kind changes nothing.
pub proof fn lemma_lines_of_other_kinds(
    scan: &mut SessionScan,
    line: &LogLine,
    envelope: LineEnvelope,
)
    requires
        call_ensures(SessionScan::observe_line, (scan, line), ()),
        line.envelope == Some(envelope),
        envelope.kind@ != "event_msg"@,
        envelope.kind@ != "turn_context"@,
        envelope.kind@ != "session_meta"@,
    ensures
        final(scan)@ == old(scan)@,
{
}

/// The description of a session tells its directory, unless it is that of the parent in a fork or
/// names none; it counts nothing and names no model.
pub proof fn lemma_description_tells_the_directory(
    scan: &mut SessionScan,
    meta: &SessionMetaPayload,
    at: Option<i64>,
)
    requires
        call_ensures(SessionScan::observe_meta, (scan, meta, at), ()),
    ensures
        final(scan)@.events == old(scan)@.events,
        final(scan)@.current_model == old(scan)@.current_model,
        final(scan)@.model_is_fallback == old(scan)@.model_is_fallback,
        final(scan)@.previous_totals == old(scan)@.previous_totals,
        final(scan)@.filter == old(scan)@.filter,
        final(scan)@.prefix == old(scan)@.prefix.after_meta(*meta, at),
        final(scan)@ == parser::after_meta_line(old(scan)@, *meta, at),
        old(scan)@.prefix.first_session_is_forked && old(scan)@.prefix.first_session_meta_seen
            && !old(scan)@.prefix.embedded_source_meta_seen ==> final(scan)@.directory
            == old(scan)@.directory,
        !wire_laws::can_be_seen(meta.cwd) ==> final(scan)@.directory == old(scan)@.directory,
        wire_laws::can_be_seen(meta.cwd) && (!old(scan)@.prefix.first_session_is_forked || !old(
            scan,
        )@.prefix.first_session_meta_seen || old(scan)@.prefix.embedded_source_meta_seen) ==> (
        meta.cwd matches Some(cwd) && final(scan)@.directory == Some(cwd@)),
{
}

/// A turn tells the directory and the model, as far as it names them: the model by its first name
/// or else by its second. It counts nothing.
pub proof fn lemma_turn_tells_directory_and_model(
    scan: &mut SessionScan,
    context: &TurnContextPayload,
    at: Option<i64>,
)
    requires
        call_ensures(SessionScan::observe_context, (scan, Some(context), at), ()),
    ensures
        final(scan)@.events == old(scan)@.events,
        final(scan)@.previous_totals == old(scan)@.previous_totals,
        final(scan)@.filter == old(scan)@.filter,
        final(scan)@.prefix == old(scan)@.prefix.after_other(at),
        final(scan)@ == parser::after_context_line(old(scan)@, Some(*context), at),
        wire_laws::can_be_seen(context.cwd) ==> (context.cwd matches Some(cwd)
            && final(scan)@.directory == Some(cwd@)),
        !wire_laws::can_be_seen(context.cwd) ==> final(scan)@.directory == old(scan)@.directory,
        wire_laws::can_be_seen(context.model) ==> final(scan)@.current_model == Some(
            text::trimmed(context.model->0@),
        ) && !final(scan)@.model_is_fallback,
        !wire_laws::can_be_seen(context.model) && wire_laws::can_be_seen(context.model_name)
            ==> final(scan)@.current_model == Some(text::trimmed(context.model_name->0@))
            && !final(scan)@.model_is_fallback,
        !wire_laws::can_be_seen(context.model) && !wire_laws::can_be_seen(context.model_name)
            ==> final(scan)@.current_model == old(scan)@.current_model
            && final(scan)@.model_is_fallback == old(scan)@.model_is_fallback,
{
    let names = seq![context.model, context.model_name];
    if wire_laws::can_be_seen(context.model) {
        assert(names[0] == context.model);
        wire_laws::lemma_first_visible_at(names, 0);
    } else if wire_laws::can_be_seen(context.model_name) {
        assert(names[1] == context.model_name);
        wire_laws::lemma_first_visible_at(names, 1);
    } else {
        wire_laws::lemma_none_visible(names);
    }
}

/// A turn without a context only takes time.
pub proof fn lemma_turn_without_context(scan: &mut SessionScan, at: Option<i64>)
    requires
        call_ensures(SessionScan::observe_context, (scan, None, at), ()),
    ensures
        final(scan)@ == (ScanModel { prefix: old(scan)@.prefix.after_other(at), ..old(scan)@ }),
        final(scan)@ == parser::after_context_line(old(scan)@, None, at),
{
}

/// An event that counts no tokens only takes time: it is a line like any other to the repeated start
/// of a fork.
pub proof fn lemma_other_events_only_take_time(
    scan: &mut SessionScan,
    event: &EventPayload,
    at: i64,
    key: Option<Vec<JsonMember>>,
)
    requires
        call_ensures(SessionScan::observe_event, (scan, event, at, key), ()),
        event.kind@ != "token_count"@,
    ensures
        final(scan)@ == (ScanModel {
            prefix: old(scan)@.prefix.after_other(Some(at)),
            ..old(scan)@
        }),
        old(scan)@.prefix.skipping && (old(
            scan,
        )@.prefix.previous_timestamp_unix_ms matches Some(before) ==> at - before <= 1000)
            ==> final(scan)@.prefix.skipping,
        final(scan)@.events == old(scan)@.events,
{
}

/// Whether an event repeats a line of the parent that was not repeated before.
pub open spec fn repeats(state: ScanModel, key: Option<Vec<JsonMember>>) -> bool {
    state.filter matches Some(lines) && (key matches Some(key) && lines.count(
        wire::member_texts(key@),
    ) > 0)
}

/// Whether an event at an instant is in the repeated start of a fork.
pub open spec fn is_inherited(state: ScanModel, at: i64) -> bool {
    state.prefix.skipping && !(state.prefix.saw_prefix_token_count && (
    state.prefix.previous_timestamp_unix_ms matches Some(before) && at - before > 1000))
}

/// A count takes in its running totals and takes one line of the parent's that it repeats, whether
/// or not it adds an event; and it leaves the directory as it is.
pub proof fn lemma_counts_take_in_totals(
    scan: &mut SessionScan,
    event: &EventPayload,
    at: i64,
    key: Option<Vec<JsonMember>>,
)
    requires
        call_ensures(SessionScan::observe_event, (scan, event, at, key), ()),
        event.kind@ == "token_count"@,
    ensures
        final(scan)@.directory == old(scan)@.directory,
        final(scan)@.prefix == old(scan)@.prefix.after_count(Some(at)),
        final(scan)@ == parser::after_event_line(
            old(scan)@,
            *event,
            at,
            match key {
                Some(key) => Some(wire::member_texts(key@)),
                None => None,
            },
        ),
        event.info is None ==> final(scan)@.previous_totals == old(scan)@.previous_totals,
        event.info matches Some(info) ==> (info.total_token_usage matches Some(raw)
            ==> final(scan)@.previous_totals == Some(raw.normalized())),
        event.info matches Some(info) ==> (info.total_token_usage is None
            ==> final(scan)@.previous_totals == old(scan)@.previous_totals),
        repeats(old(scan)@, key) ==> (old(scan)@.filter matches Some(lines) && (
        key matches Some(key) && final(scan)@.filter == Some(
            lines.remove(wire::member_texts(key@)),
        ))),
        !repeats(old(scan)@, key) ==> final(scan)@.filter == old(scan)@.filter,
{
}

/// A count adds no event where it is inherited, repeats a line of the parent, gives no counts, or
/// its running totals have not grown; the latest model stays as well.
pub proof fn lemma_counts_that_add_nothing(
    scan: &mut SessionScan,
    event: &EventPayload,
    at: i64,
    key: Option<Vec<JsonMember>>,
)
    requires
        call_ensures(SessionScan::observe_event, (scan, event, at, key), ()),
        event.kind@ == "token_count"@,
        is_inherited(old(scan)@, at) || repeats(old(scan)@, key) || event.info is None || (
        event.info matches Some(info) && info.total_token_usage is None && info.last_token_usage
            is None) || (event.info matches Some(info) && (
        info.total_token_usage matches Some(raw) && old(scan)@.previous_totals == Some(
            raw.normalized(),
        ))),
    ensures
        final(scan)@.events == old(scan)@.events,
        final(scan)@.current_model == old(scan)@.current_model,
        final(scan)@.model_is_fallback == old(scan)@.model_is_fallback,
{
}

/// What a count says was used: as much as its running totals have grown since the latest ones, or
/// else the counts of the last request.
pub open spec fn is_used(state: ScanModel, event: EventPayload, used: Usage) -> bool {
    &&& event.info matches Some(info)
    &&& match info.total_token_usage {
        Some(raw) => call_ensures(
            wire::subtract_usage,
            (raw.normalized(), state.previous_totals),
            used,
        ),
        None => info.last_token_usage matches Some(raw) && used == raw.normalized(),
    }
}

/// A count that is neither inherited nor repeated adds one event where anything was used: at its
/// instant, of what was used.
pub proof fn lemma_counts_add_what_was_used(
    scan: &mut SessionScan,
    event: &EventPayload,
    at: i64,
    key: Option<Vec<JsonMember>>,
    used: Usage,
)
    requires
        call_ensures(SessionScan::observe_event, (scan, event, at, key), ()),
        event.kind@ == "token_count"@,
        !is_inherited(old(scan)@, at),
        !repeats(old(scan)@, key),
        is_used(old(scan)@, *event, used),
        used.input_tokens > 0 || used.cached_input_tokens > 0 || used.output_tokens > 0
            || used.reasoning_output_tokens > 0 || used.total_tokens > 0,
    ensures
        final(scan)@.events.len() == old(scan)@.events.len() + 1,
        final(scan)@.events.drop_last() == old(scan)@.events,
        final(scan)@.events.last().timestamp_unix_ms == at,
        final(scan)@.events.last().usage == used,
        final(scan)@.current_model == Some(final(scan)@.events.last().model),
        final(scan)@.model_is_fallback == final(scan)@.events.last().is_fallback_model,
{
    assert(final(scan)@.events.drop_last() =~= old(scan)@.events);
}

/// A count of no tokens at all adds no event.
pub proof fn lemma_counts_of_nothing(
    scan: &mut SessionScan,
    event: &EventPayload,
    at: i64,
    key: Option<Vec<JsonMember>>,
    used: Usage,
)
    requires
        call_ensures(SessionScan::observe_event, (scan, event, at, key), ()),
        event.kind@ == "token_count"@,
        is_used(old(scan)@, *event, used),
        used.input_tokens == 0 && used.cached_input_tokens == 0 && used.output_tokens == 0
            && used.reasoning_output_tokens == 0 && used.total_tokens == 0,
    ensures
        final(scan)@.events == old(scan)@.events,
{
}

/// The names that an event gives its model, in the order in which they count.
pub open spec fn given_names(event: EventPayload) -> Seq<Option<String>> {
    match event.info {
        Some(info) => seq![event.model, event.model_name, info.model, info.model_name],
        None => seq![event.model, event.model_name],
    }
}

/// An event goes to the model that it names: by the first name of its own that can be seen, or else
/// of its counts.
pub proof fn lemma_events_go_to_the_named_model(
    scan: &mut SessionScan,
    event: &EventPayload,
    at: i64,
    key: Option<Vec<JsonMember>>,
    n: int,
)
    requires
        call_ensures(SessionScan::observe_event, (scan, event, at, key), ()),
        final(scan)@.events.len() > old(scan)@.events.len(),
        0 <= n < given_names(*event).len(),
        wire_laws::can_be_seen(given_names(*event)[n]),
        forall|i: int| 0 <= i < n ==> !wire_laws::can_be_seen(#[trigger] given_names(*event)[i]),
    ensures
        final(scan)@.events.last().model == text::trimmed(given_names(*event)[n]->0@),
        !final(scan)@.events.last().is_fallback_model,
        final(scan)@.current_model == Some(final(scan)@.events.last().model),
        !final(scan)@.model_is_fallback,
{
    let names = match event.info {
        Some(info) => seq![event.model, event.model_name, info.model, info.model_name],
        None => seq![event.model, event.model_name, None, None],
    };
    assert forall|i: int| 0 <= i < n implies !wire_laws::can_be_seen(#[trigger] names[i]) by {
        assert(names[i] == given_names(*event)[i]);
    }
    assert(names[n] == given_names(*event)[n]);
    wire_laws::lemma_first_visible_at(names, n);
}

/// An event that names no model goes to the latest one, and is assumed to be of it where that one
/// was assumed; before any was named it goes to an unknown one, which is assumed.
pub proof fn lemma_events_go_to_the_latest_model(
    scan: &mut SessionScan,
    event: &EventPayload,
    at: i64,
    key: Option<Vec<JsonMember>>,
)
    requires
        call_ensures(SessionScan::observe_event, (scan, event, at, key), ()),
        final(scan)@.events.len() > old(scan)@.events.len(),
        forall|i: int|
            0 <= i < given_names(*event).len() ==> !wire_laws::can_be_seen(
                #[trigger] given_names(*event)[i],
            ),
    ensures
        old(scan)@.current_model matches Some(model) ==> final(scan)@.events.last().model == model
            && final(scan)@.events.last().is_fallback_model == old(scan)@.model_is_fallback,
        old(scan)@.current_model is None ==> final(scan)@.events.last().model == "unknown"@
            && final(scan)@.events.last().is_fallback_model,
        final(scan)@.current_model == Some(final(scan)@.events.last().model),
        final(scan)@.model_is_fallback == final(scan)@.events.last().is_fallback_model,
{
    let names = match event.info {
        Some(info) => seq![event.model, event.model_name, info.model, info.model_name],
        None => seq![event.model, event.model_name, None, None],
    };
    assert forall|i: int| 0 <= i < names.len() implies !wire_laws::can_be_seen(
        #[trigger] names[i],
    ) by {
        if i < given_names(*event).len() {
            assert(names[i] == given_names(*event)[i]);
        }
    }
    wire_laws::lemma_none_visible(names);
}

/// A session of which no line was read has no events, no model and no directory.
pub proof fn lemma_session_of_no_lines(
    filter: Option<DuplicateLineFilter>,
    scan: SessionScan,
    state: InheritedPrefixState,
)
    requires
        call_ensures(SessionScan::new, (filter,), scan),
        call_ensures(InheritedPrefixState::new, (), state),
    ensures
        scan@.events.len() == 0,
        scan@.current_model is None,
        !scan@.model_is_fallback,
        scan@.directory is None,
        scan@.previous_totals is None,
        scan@.prefix == state,
        filter is None ==> scan@.filter is None,
        filter matches Some(filter) ==> scan@.filter == Some(filter@),
{
}

/// What is read of a log is what its lines tell one after the other.
pub proof fn lemma_lines_one_after_the_other(
    state: ScanModel,
    lines: Seq<LogLine>,
    line: LogLine,
)
    ensures
        parser::after_lines(state, Seq::empty()) == state,
        parser::after_lines(state, lines.push(line)) == parser::after_line(
            parser::after_lines(state, lines),
            line,
        ),
{
    assert(lines.push(line).drop_last() =~= lines);
}

/// A line read in a log tells what it tells when it is read by itself.
pub proof fn lemma_line_by_itself(scan: &mut SessionScan, line: &LogLine)
    requires
        call_ensures(SessionScan::observe_line, (scan, line), ()),
    ensures
        final(scan)@ == parser::after_line(old(scan)@, *line),
{
}

} // verus!
