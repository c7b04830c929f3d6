//! What holds of what forked sessions repeat.

use crate::session_log::fork;
use crate::session_log::fork::{DuplicateLineFilter, InheritedPrefixState, LineKey};
use crate::session_log::parser;
use crate::session_log::parser::ScanModel;
use crate::session_log::wire;
use crate::session_log::wire::{JsonMember, LinePayload, LogLine, SessionMetaPayload};
use crate::session_log::wire_laws;
use vstd::multiset::Multiset;
use vstd::prelude::*;

verus! {

/// At the start of a log nothing is known and nothing is skipped.
pub proof fn lemma_nothing_is_skipped_at_first(state: InheritedPrefixState)
    requires
        call_ensures(InheritedPrefixState::new, (), state),
    ensures
        !state.first_session_meta_seen,
        !state.first_session_is_forked,
        !state.embedded_source_meta_seen,
        !state.skipping,
        !state.saw_prefix_token_count,
        state.previous_timestamp_unix_ms is None,
{
}

/// The first description tells whether the session was forked, and skips nothing. The next one in a
/// fork is that of its parent, and from it on counts are skipped. All others only take time.
pub proof fn lemma_descriptions(
    state: &mut InheritedPrefixState,
    meta: &SessionMetaPayload,
    at: Option<i64>,
    embedded: bool,
)
    requires
        call_ensures(InheritedPrefixState::observe_session_meta, (state, meta, at), embedded),
    ensures
        final(state).first_session_meta_seen,
        final(state).saw_prefix_token_count == old(state).saw_prefix_token_count,
        final(state).previous_timestamp_unix_ms == if at is Some {
            at
        } else {
            old(state).previous_timestamp_unix_ms
        },
        final(state).first_session_is_forked == if old(state).first_session_meta_seen {
            old(state).first_session_is_forked
        } else {
            wire_laws::can_be_seen(meta.forked_from_id)
        },
        embedded == (old(state).first_session_meta_seen && old(state).first_session_is_forked
            && !old(state).embedded_source_meta_seen),
        embedded ==> final(state).skipping && final(state).embedded_source_meta_seen,
        !embedded ==> final(state).skipping == old(state).skipping
            && final(state).embedded_source_meta_seen == old(state).embedded_source_meta_seen,
{
}

/// In the repeated start of a fork, a line that counts no tokens leaves the fork skipping unless it
/// comes more than a second after the line before it, and after a count; then it ends the repeated
/// start. Elsewhere it does not start one.
pub proof fn lemma_other_lines_within_the_gap_keep_skipping(
    state: &mut InheritedPrefixState,
    at: Option<i64>,
)
    requires
        call_ensures(InheritedPrefixState::observe_non_token_line, (state, at), ()),
    ensures
        !old(state).skipping ==> !final(state).skipping,
        old(state).skipping && at is None ==> final(state).skipping,
        old(state).skipping && old(state).previous_timestamp_unix_ms is None
            ==> final(state).skipping,
        old(state).skipping && !old(state).saw_prefix_token_count ==> final(state).skipping,
        at matches Some(now) ==> (old(state).previous_timestamp_unix_ms matches Some(before)
            ==> (old(state).skipping && now - before <= 1000 ==> final(state).skipping)),
        at matches Some(now) ==> (old(state).previous_timestamp_unix_ms matches Some(before)
            ==> (old(state).saw_prefix_token_count && now - before > 1000
            ==> !final(state).skipping)),
        final(state).previous_timestamp_unix_ms == if at is Some {
            at
        } else {
            old(state).previous_timestamp_unix_ms
        },
        final(state).saw_prefix_token_count == old(state).saw_prefix_token_count,
        final(state).first_session_meta_seen == old(state).first_session_meta_seen,
        final(state).first_session_is_forked == old(state).first_session_is_forked,
        final(state).embedded_source_meta_seen == old(state).embedded_source_meta_seen,
{
}

/// A count is of the repeated start unless nothing is skipped, or it comes more than a second after
/// the line before it and after another count of the repeated start.
pub proof fn lemma_counts_within_the_gap_are_skipped(
    state: &mut InheritedPrefixState,
    at: Option<i64>,
    is_prefix: bool,
)
    requires
        call_ensures(InheritedPrefixState::observe_token_count, (state, at), is_prefix),
    ensures
        is_prefix == final(state).skipping,
        is_prefix ==> final(state).saw_prefix_token_count,
        !is_prefix ==> final(state).saw_prefix_token_count == old(state).saw_prefix_token_count,
        !old(state).skipping ==> !is_prefix,
        old(state).skipping && at is None ==> is_prefix,
        old(state).skipping && old(state).previous_timestamp_unix_ms is None ==> is_prefix,
        old(state).skipping && !old(state).saw_prefix_token_count ==> is_prefix,
        at matches Some(now) ==> (old(state).previous_timestamp_unix_ms matches Some(before)
            ==> (old(state).skipping && now - before <= 1000 ==> is_prefix)),
        at matches Some(now) ==> (old(state).previous_timestamp_unix_ms matches Some(before)
            ==> (old(state).saw_prefix_token_count && now - before > 1000 ==> !is_prefix)),
        final(state).previous_timestamp_unix_ms == if at is Some {
            at
        } else {
            old(state).previous_timestamp_unix_ms
        },
        final(state).first_session_meta_seen == old(state).first_session_meta_seen,
        final(state).first_session_is_forked == old(state).first_session_is_forked,
        final(state).embedded_source_meta_seen == old(state).embedded_source_meta_seen,
{
}

/// Whether a line comes no more than a second after an instant, where both are known.
pub open spec fn follows_closely(before: Option<i64>, line: LogLine) -> bool {
    before matches Some(before) ==> (line.envelope matches Some(envelope) ==> (wire::instant(
        envelope.timestamp,
    ) matches Some(now) ==> now - before <= 1000))
}

/// Whether each of some lines comes no more than a second after the latest one before it whose
/// instant is known.
pub open spec fn lines_follow_closely(state: ScanModel, lines: Seq<LogLine>) -> bool {
    forall|i: int|
        0 <= i < lines.len() ==> follows_closely(
            latest_instant(state, lines.take(i)),
            #[trigger] lines[i],
        )
}

/// The latest instant that is known after some lines.
pub open spec fn latest_instant(state: ScanModel, lines: Seq<LogLine>) -> Option<i64> {
    parser::after_lines(state, lines).prefix.previous_timestamp_unix_ms
}

/// In the repeated start of a fork, lines that follow each other closely add no event, however many
/// of them there are and whatever they say, and leave the fork skipping.
pub proof fn lemma_repeated_start_adds_no_event(state: ScanModel, lines: Seq<LogLine>)
    requires
        state.prefix.skipping,
        lines_follow_closely(state, lines),
    ensures
        parser::after_lines(state, lines).prefix.skipping,
        parser::after_lines(state, lines).events == state.events,
    decreases lines.len(),
{
    if lines.len() > 0 {
        let fewer = lines.drop_last();
        let n = lines.len() - 1;
        assert(lines.take(n) =~= fewer);
        assert forall|i: int| 0 <= i < fewer.len() implies follows_closely(
            latest_instant(state, fewer.take(i)),
            #[trigger] fewer[i],
        ) by {
            assert(fewer[i] == lines[i]);
            assert(fewer.take(i) =~= lines.take(i));
        }
        lemma_repeated_start_adds_no_event(state, fewer);
        let middle = parser::after_lines(state, fewer);
        assert(follows_closely(middle.prefix.previous_timestamp_unix_ms, lines[n]));
    }
}

/// An instant is in time where there is no cutoff, or it is known and not after it.
pub proof fn lemma_in_time(unix_ms: Option<i64>, cutoff: Option<i64>, is_in: bool)
    requires
        call_ensures(fork::is_in_time, (unix_ms, cutoff), is_in),
    ensures
        cutoff is None ==> is_in,
        cutoff is Some && unix_ms is None ==> !is_in,
        cutoff matches Some(end) ==> (unix_ms matches Some(ms) ==> (is_in <==> ms <= end)),
{
}

/// A line of a parent counts tokens exactly when its bytes and its payload both say so.
pub proof fn lemma_counting_lines(line: &LogLine, counts: bool)
    requires
        call_ensures(fork::is_count, (line,), counts),
    ensures
        counts ==> wire_laws::hold(
            wire::trimmed_line(line.bytes@),
            "\"type\":\"event_msg\""@,
        ) && wire_laws::hold(wire::trimmed_line(line.bytes@), "\"type\":\"token_count\""@)
            && line.envelope is Some && line.envelope->0.kind@ == "event_msg"@ && (
        line.envelope->0.payload matches Some(LinePayload::Event(event)) && event.kind@
            == "token_count"@),
        wire::trimmed_line(line.bytes@).len() > 0 && wire_laws::hold(
            wire::trimmed_line(line.bytes@),
            "\"type\":\"event_msg\""@,
        ) && wire_laws::hold(wire::trimmed_line(line.bytes@), "\"type\":\"token_count\""@)
            && line.envelope is Some && line.envelope->0.kind@ == "event_msg"@ && (
        line.envelope->0.payload matches Some(LinePayload::Event(event)) && event.kind@
            == "token_count"@) ==> counts,
{
    wire_laws::lemma_hold(wire::trimmed_line(line.bytes@), "\"type\":\"event_msg\""@);
    wire_laws::lemma_hold(wire::trimmed_line(line.bytes@), "\"type\":\"token_count\""@);
}

/// The filter of a parent's lines holds the key of each line that counts tokens in time, as often as
/// there are such lines, and nothing else.
pub proof fn lemma_filter_of_one_more_line(
    lines: &[LogLine],
    filter: DuplicateLineFilter,
    more: &[LogLine],
    longer: DuplicateLineFilter,
    cutoff: Option<i64>,
    line: &LogLine,
    counts: bool,
    in_time: bool,
)
    requires
        call_ensures(DuplicateLineFilter::from_file, (lines, cutoff), filter),
        call_ensures(DuplicateLineFilter::from_file, (more, cutoff), longer),
        more@ == lines@.push(*line),
        call_ensures(fork::is_count, (line,), counts),
        line.envelope matches Some(envelope) ==> call_ensures(
            fork::is_in_time,
            (wire::instant(envelope.timestamp), cutoff),
            in_time,
        ),
    ensures
        lines@.len() == 0 ==> filter@ == Multiset::<LineKey>::empty(),
        counts && in_time ==> (wire::line_key(wire::trimmed_line(line.bytes@)) matches Some(key)
            ==> longer@ == filter@.insert(key)),
        !counts || !in_time || wire::line_key(wire::trimmed_line(line.bytes@)) is None ==> longer@
            == filter@,
{
    assert(more@.drop_last() =~= lines@);
}

/// A line repeats one of the parent's exactly when the filter still holds its key, and it then holds
/// it once less; no other key is touched.
pub proof fn lemma_each_line_is_repeated_once(
    filter: &mut DuplicateLineFilter,
    trimmed: &[u8],
    duplicate: bool,
    other: LineKey,
)
    requires
        call_ensures(DuplicateLineFilter::consume_if_duplicate, (filter, trimmed), duplicate),
    ensures
        wire::line_key(trimmed@) is None ==> !duplicate,
        wire::line_key(trimmed@) matches Some(key) ==> (duplicate <==> old(filter)@.count(key) > 0),
        duplicate ==> (wire::line_key(trimmed@) matches Some(key) ==> final(filter)@.count(key)
            == old(filter)@.count(key) - 1),
        !duplicate || wire::line_key(trimmed@) != Some(other) ==> final(filter)@.count(other)
            == old(filter)@.count(other),
{
}

/// A key that is looked for by itself is found and taken as one of a line is.
pub proof fn lemma_keys_are_taken_once(
    filter: &mut DuplicateLineFilter,
    key: &Vec<JsonMember>,
    duplicate: bool,
    other: LineKey,
)
    requires
        call_ensures(DuplicateLineFilter::consume_key, (filter, key), duplicate),
    ensures
        duplicate <==> old(filter)@.count(wire::member_texts(key@)) > 0,
        duplicate ==> final(filter)@.count(wire::member_texts(key@)) == old(filter)@.count(
            wire::member_texts(key@),
        ) - 1,
        !duplicate || wire::member_texts(key@) != other ==> final(filter)@.count(other)
            == old(filter)@.count(other),
{
}

/// A key that is added is there once more, and every other as often as before.
pub proof fn lemma_keys_are_added_once(
    filter: &mut DuplicateLineFilter,
    key: Vec<JsonMember>,
    other: LineKey,
)
    requires
        call_ensures(DuplicateLineFilter::remember, (filter, key), ()),
    ensures
        final(filter)@.count(wire::member_texts(key@)) == old(filter)@.count(
            wire::member_texts(key@),
        ) + 1,
        wire::member_texts(key@) != other ==> final(filter)@.count(other) == old(filter)@.count(
            other,
        ),
{
}

} // verus!
