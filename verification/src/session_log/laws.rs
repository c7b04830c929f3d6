//! What holds of every session log.

use crate::report::sums;
use crate::session_log::fork;
use crate::session_log::parser;
use crate::session_log::parser::ScanModel;
use crate::session_log::wire;
use crate::session_log::wire::{EventPayload, LinePayload, LogLine, RawUsage};
use crate::text;
use crate::types::{EventModel, TokenCounts, Usage};
use vstd::multiset::Multiset;
use vstd::prelude::*;

verus! {

/// A count of tokens and its instant.
pub struct TokenCount {
    pub event: EventPayload,
    pub unix_ms: i64,
}

/// The count of tokens that a line makes, where it makes one.
pub open spec fn count_of(line: LogLine) -> Option<TokenCount> {
    if !parser::is_relevant(wire::trimmed_line(line.bytes@)) {
        None
    } else {
        match line.envelope {
            Some(envelope) => match (
                wire::form_of(envelope.kind@),
                wire::instant(envelope.timestamp),
                envelope.payload,
            ) {
                (
                    Some(wire::PayloadForm::Event),
                    Some(unix_ms),
                    Some(LinePayload::Event(event)),
                ) => if event.kind@ == "token_count"@ {
                    Some(TokenCount { event, unix_ms })
                } else {
                    None
                },
                _ => None,
            },
            None => None,
        }
    }
}

/// A line that counts no tokens adds no event, and leaves the running totals and the lines that may
/// be repeated as they are.
pub proof fn lemma_only_counts_count(state: ScanModel, line: LogLine)
    requires
        count_of(line) is None,
    ensures
        parser::after_line(state, line).events == state.events,
        parser::after_line(state, line).previous_totals == state.previous_totals,
        parser::after_line(state, line).filter == state.filter,
{
    reveal_strlit("session_meta");
    reveal_strlit("turn_context");
    reveal_strlit("event_msg");
}

/// A line that counts tokens is taken as a count.
proof fn lemma_count_line(state: ScanModel, line: LogLine)
    requires
        count_of(line) is Some,
    ensures
        parser::after_line(state, line) == parser::after_count_line(
            state,
            count_of(line)->0.event,
            count_of(line)->0.unix_ms,
            wire::line_key(wire::trimmed_line(line.bytes@)),
        ),
{
}

/// A line whose bytes hold none of the marks of lines of interest changes nothing.
pub proof fn lemma_unmarked_lines_are_skipped(state: ScanModel, line: LogLine)
    requires
        wire::hint_of(wire::trimmed_line(line.bytes@)) == wire::LineKindHint::Other,
    ensures
        parser::after_line(state, line) == state,
{
}

/// A log can be read in parts.
pub proof fn lemma_read_in_parts(state: ScanModel, first: Seq<LogLine>, second: Seq<LogLine>)
    ensures
        parser::after_lines(state, first + second) == parser::after_lines(
            parser::after_lines(state, first),
            second,
        ),
    decreases second.len(),
{
    if second.len() == 0 {
        assert(first + second =~= first);
    } else {
        assert((first + second).drop_last() =~= first + second.drop_last());
        lemma_read_in_parts(state, first, second.drop_last());
    }
}

/// A line adds one event or none, and changes none that was read before.
proof fn lemma_line_adds(state: ScanModel, line: LogLine)
    ensures
        parser::after_line(state, line).events == state.events || (parser::after_line(
            state,
            line,
        ).events.len() == state.events.len() + 1 && parser::after_line(
            state,
            line,
        ).events.drop_last() == state.events),
{
    if count_of(line) is None {
        lemma_only_counts_count(state, line);
    } else {
        lemma_count_line(state, line);
        let after = parser::after_line(state, line).events;
        if after != state.events {
            assert(after.drop_last() =~= state.events);
        }
    }
}

/// The events of a log stay the same when lines are added to its end.
pub proof fn lemma_events_only_grow(state: ScanModel, lines: Seq<LogLine>, more: Seq<LogLine>)
    ensures
        parser::after_lines(state, lines).events.is_prefix_of(
            parser::after_lines(state, lines + more).events,
        ),
    decreases more.len(),
{
    if more.len() == 0 {
        assert(lines + more =~= lines);
    } else {
        assert((lines + more).drop_last() =~= lines + more.drop_last());
        lemma_events_only_grow(state, lines, more.drop_last());
        lemma_line_adds(parser::after_lines(state, lines + more.drop_last()), more.last());
    }
}

/// What holds of every event of a log: it uses something, its model has a visible name, and only an
/// unknown model is an assumed one.
pub open spec fn is_sound(event: EventModel) -> bool {
    &&& event.usage != Usage::none()
    &&& !text::is_blank(event.model)
    &&& event.is_fallback_model ==> event.model == parser::UNKNOWN_MODEL@
}

/// What is known of the latest model: it has a visible name, and is unknown where it was assumed.
spec fn model_is_sound(state: ScanModel) -> bool {
    &&& state.current_model matches Some(model) ==> !text::is_blank(model)
    &&& state.model_is_fallback ==> state.current_model == Some(parser::UNKNOWN_MODEL@)
}

proof fn lemma_first_visible(candidates: Seq<Option<String>>)
    ensures
        wire::first_visible(candidates) matches Some(name) ==> !text::is_blank(name),
    decreases candidates.len(),
{
    if candidates.len() > 0 {
        lemma_first_visible(candidates.drop_first());
        if let Some(value) = candidates[0] {
            text::lemma_trimmed(value@);
            if !text::is_blank(value@) {
                assert(!text::is_white(text::trimmed(value@)[0]));
            }
        }
    }
}

proof fn lemma_line_is_sound(state: ScanModel, line: LogLine)
    requires
        model_is_sound(state),
        forall|i: int| 0 <= i < state.events.len() ==> is_sound(#[trigger] state.events[i]),
    ensures
        model_is_sound(parser::after_line(state, line)),
        forall|i: int|
            0 <= i < parser::after_line(state, line).events.len() ==> is_sound(
                #[trigger] parser::after_line(state, line).events[i],
            ),
{
    let after = parser::after_line(state, line);
    assert(!text::is_blank(parser::UNKNOWN_MODEL@)) by {
        reveal_strlit("unknown");
        assert(parser::UNKNOWN_MODEL@[0] == 'u');
    }
    if count_of(line) is Some {
        lemma_count_line(state, line);
        let event = count_of(line)->0.event;
        let (model, model_name) = match event.info {
            Some(info) => (info.model, info.model_name),
            None => (None, None),
        };
        lemma_first_visible(seq![event.model, event.model_name, model, model_name]);
    } else {
        lemma_only_counts_count(state, line);
        if let Some(envelope) = line.envelope {
            if let Some(LinePayload::TurnContext(context)) = envelope.payload {
                lemma_first_visible(seq![context.model, context.model_name]);
            }
        }
    }
}

/// Every event of a log uses something, names a model, and has an assumed model only where the
/// model is unknown.
pub proof fn lemma_events_are_sound(
    lines: Seq<LogLine>,
    filter: Option<Multiset<fork::LineKey>>,
)
    ensures
        forall|i: int|
            0 <= i < parser::events_of(lines, filter).len() ==> is_sound(
                #[trigger] parser::events_of(lines, filter)[i],
            ),
{
    lemma_states_are_sound(lines, filter);
}

proof fn lemma_states_are_sound(lines: Seq<LogLine>, filter: Option<Multiset<fork::LineKey>>)
    ensures
        model_is_sound(parser::after_lines(parser::scan_start(filter), lines)),
        forall|i: int|
            0 <= i < parser::events_of(lines, filter).len() ==> is_sound(
                #[trigger] parser::events_of(lines, filter)[i],
            ),
    decreases lines.len(),
{
    if lines.len() > 0 {
        let shorter = lines.drop_last();
        let before = parser::after_lines(parser::scan_start(filter), shorter);
        lemma_states_are_sound(shorter, filter);
        assert(parser::events_of(shorter, filter) == before.events);
        lemma_line_is_sound(before, lines.last());
        let after = parser::after_line(before, lines.last());
        assert(parser::events_of(lines, filter) == after.events);
    }
}

/// Whether a line describes a session that was forked from another.
pub open spec fn describes_fork(line: LogLine) -> bool {
    &&& line.envelope matches Some(envelope)
    &&& envelope.payload matches Some(LinePayload::SessionMeta(meta))
    &&& wire::visible(meta.forked_from_id) is Some
}

/// Wherever a log is read to, lines are skipped only in a session that was forked and has repeated
/// the description of its parent.
pub proof fn lemma_only_forks_skip(lines: Seq<LogLine>, filter: Option<Multiset<fork::LineKey>>)
    ensures
        parser::after_lines(parser::scan_start(filter), lines).prefix.wf(),
    decreases lines.len(),
{
    if lines.len() > 0 {
        lemma_only_forks_skip(lines.drop_last(), filter);
    }
}

/// Where no line describes a fork, no line is skipped as repeated from the start of a parent.
pub proof fn lemma_nothing_inherited_without_fork(
    lines: Seq<LogLine>,
    filter: Option<Multiset<fork::LineKey>>,
)
    requires
        forall|i: int| 0 <= i < lines.len() ==> !describes_fork(#[trigger] lines[i]),
    ensures
        !parser::after_lines(parser::scan_start(filter), lines).prefix.first_session_is_forked,
        !parser::after_lines(parser::scan_start(filter), lines).prefix.skipping,
    decreases lines.len(),
{
    lemma_only_forks_skip(lines, filter);
    if lines.len() > 0 {
        let shorter = lines.drop_last();
        assert forall|i: int| 0 <= i < shorter.len() implies !describes_fork(
            #[trigger] shorter[i],
        ) by {
            assert(shorter[i] == lines[i]);
        }
        lemma_nothing_inherited_without_fork(shorter, filter);
        assert(!describes_fork(lines[lines.len() - 1]));
    }
}

/// Whether a line, read after others, gives running totals that are nowhere below the latest ones,
/// if it counts tokens at all.
pub open spec fn totals_grow(state: ScanModel, line: LogLine) -> bool {
    count_of(line) matches Some(count) ==> {
        &&& parser::reported_total(count.event.info) matches Some(total)
        &&& latest_total(state).within(total@)
    }
}

/// The latest running totals, none before the first.
pub open spec fn latest_total(state: ScanModel) -> TokenCounts {
    match state.previous_totals {
        Some(total) => total@,
        None => TokenCounts::zero(),
    }
}

/// Whether nothing is left out of some lines: none is skipped as inherited, and none repeats a line
/// of a parent.
pub open spec fn nothing_left_out(state: ScanModel, lines: Seq<LogLine>) -> bool {
    &&& state.filter matches Some(parent) ==> parent == Multiset::<fork::LineKey>::empty()
    &&& forall|i: int|
        0 <= i < lines.len() ==> !(#[trigger] parser::after_lines(
            state,
            lines.take(i),
        )).prefix.skipping
}

/// Whether each count of some lines gives running totals, and these never go down.
pub open spec fn totals_never_fall(state: ScanModel, lines: Seq<LogLine>) -> bool {
    forall|i: int|
        0 <= i < lines.len() ==> totals_grow(
            parser::after_lines(state, lines.take(i)),
            #[trigger] lines[i],
        )
}

/// Where nothing is left out of some lines and their running totals never go down, the events that
/// they add use as much as the totals grow.
pub proof fn lemma_usage_is_growth_of_totals(state: ScanModel, lines: Seq<LogLine>)
    requires
        nothing_left_out(state, lines),
        totals_never_fall(state, lines),
    ensures
        sums::all_usage(parser::after_lines(state, lines).events).plus(
            latest_total(state),
        ) == sums::all_usage(state.events).plus(
            latest_total(parser::after_lines(state, lines)),
        ),
        parser::after_lines(state, lines).filter == state.filter,
    decreases lines.len(),
{
    if lines.len() > 0 {
        let shorter = lines.drop_last();
        let last = lines.last();
        let n = lines.len() - 1;
        assert forall|i: int| 0 <= i < shorter.len() implies !(#[trigger] parser::after_lines(
            state,
            shorter.take(i),
        )).prefix.skipping by {
            assert(shorter.take(i) =~= lines.take(i));
        }
        assert forall|i: int| 0 <= i < shorter.len() implies totals_grow(
            parser::after_lines(state, shorter.take(i)),
            #[trigger] shorter[i],
        ) by {
            assert(shorter[i] == lines[i]);
            assert(shorter.take(i) =~= lines.take(i));
        }
        lemma_usage_is_growth_of_totals(state, shorter);
        let before = parser::after_lines(state, shorter);
        assert(lines.take(n) =~= shorter);
        assert(!parser::after_lines(state, lines.take(n)).prefix.skipping);
        assert(totals_grow(before, lines[n]));
        if count_of(last) is None {
            lemma_only_counts_count(before, last);
        } else {
            lemma_count_line(before, last);
            let after = parser::after_line(before, last);
            let event = count_of(last)->0.event;
            let usage = parser::reported_usage(event.info, before.previous_totals)->0;
            if usage != Usage::none() {
                let counted = after.events.last();
                assert(after.events =~= before.events.push(counted));
                sums::lemma_usage_pushed(before.events, counted, sums::every());
            }
        }
    }
}

/// Where each count gives running totals and these never go down, the usage of a session that was
/// not forked adds up to the last totals.
pub proof fn lemma_usage_adds_up_to_totals(lines: Seq<LogLine>)
    requires
        forall|i: int| 0 <= i < lines.len() ==> !describes_fork(#[trigger] lines[i]),
        totals_never_fall(parser::scan_start(None), lines),
    ensures
        sums::all_usage(parser::events_of(lines, None)) == latest_total(
            parser::after_lines(parser::scan_start(None), lines),
        ),
{
    let start = parser::scan_start(None);
    assert forall|i: int| 0 <= i < lines.len() implies !(#[trigger] parser::after_lines(
        start,
        lines.take(i),
    )).prefix.skipping by {
        let some = lines.take(i);
        assert forall|j: int| 0 <= j < some.len() implies !describes_fork(#[trigger] some[j]) by {
            assert(some[j] == lines[j]);
        }
        lemma_nothing_inherited_without_fork(some, None);
    }
    lemma_usage_is_growth_of_totals(start, lines);
}

/// A forked session that first repeats every count of its parent, and then makes counts of its own
/// whose running totals never go down, counts exactly what the totals grow by after the repeated
/// part: usage of the parent is not counted again.
pub proof fn lemma_fork_counts_its_own_usage(
    repeated: Seq<LogLine>,
    own: Seq<LogLine>,
    parent: Multiset<fork::LineKey>,
)
    requires
        counts_have_keys(repeated),
        count_keys(repeated) == parent,
        forall|i: int|
            0 <= i < own.len() ==> !(#[trigger] parser::after_lines(
                parser::scan_start(Some(parent)),
                repeated + own.take(i),
            )).prefix.skipping,
        totals_never_fall(parser::after_lines(parser::scan_start(Some(parent)), repeated), own),
    ensures
        sums::all_usage(parser::events_of(repeated + own, Some(parent))).plus(
            latest_total(parser::after_lines(parser::scan_start(Some(parent)), repeated)),
        ) == latest_total(parser::after_lines(parser::scan_start(Some(parent)), repeated + own)),
{
    let start = parser::scan_start(Some(parent));
    let middle = parser::after_lines(start, repeated);
    lemma_repeated_counts_are_left_out(start, repeated, parent);
    assert(parent.sub(parent) =~= Multiset::empty());
    assert forall|i: int| 0 <= i < own.len() implies !(#[trigger] parser::after_lines(
        middle,
        own.take(i),
    )).prefix.skipping by {
        lemma_read_in_parts(start, repeated, own.take(i));
        assert(!parser::after_lines(start, repeated + own.take(i)).prefix.skipping);
    }
    lemma_usage_is_growth_of_totals(middle, own);
    lemma_read_in_parts(start, repeated, own);
    assert(middle.events =~= Seq::<EventModel>::empty());
}

/// A count in the repeated start of a fork adds no event, but its running totals are taken in.
pub proof fn lemma_inherited_counts_add_nothing(state: ScanModel, line: LogLine)
    requires
        count_of(line) matches Some(count) && state.prefix.skips_at(Some(count.unix_ms)),
    ensures
        parser::after_line(state, line).events == state.events,
        parser::reported_total(count_of(line)->0.event.info) is Some
            ==> parser::after_line(state, line).previous_totals == parser::reported_total(
            count_of(line)->0.event.info,
        ),
{
    lemma_count_line(state, line);
}

/// The repeated start of a fork ends once: after it nothing is skipped as inherited.
pub proof fn lemma_inherited_start_ends_once(state: ScanModel, lines: Seq<LogLine>)
    requires
        state.prefix.first_session_meta_seen,
        state.prefix.embedded_source_meta_seen,
        !state.prefix.skipping,
    ensures
        !parser::after_lines(state, lines).prefix.skipping,
        parser::after_lines(state, lines).prefix.first_session_meta_seen,
        parser::after_lines(state, lines).prefix.embedded_source_meta_seen,
    decreases lines.len(),
{
    if lines.len() > 0 {
        lemma_inherited_start_ends_once(state, lines.drop_last());
    }
}

/// The keys of the lines that count tokens, each as often as it occurs.
pub open spec fn count_keys(lines: Seq<LogLine>) -> Multiset<fork::LineKey>
    decreases lines.len(),
{
    if lines.len() == 0 {
        Multiset::empty()
    } else {
        let before = count_keys(lines.drop_last());
        match (count_of(lines.last()), wire::line_key(wire::trimmed_line(lines.last().bytes@))) {
            (Some(_), Some(key)) => before.insert(key),
            _ => before,
        }
    }
}

/// Whether each line that counts tokens has a key.
pub open spec fn counts_have_keys(lines: Seq<LogLine>) -> bool {
    forall|i: int|
        0 <= i < lines.len() && count_of(#[trigger] lines[i]) is Some ==> wire::line_key(
            wire::trimmed_line(lines[i].bytes@),
        ) is Some
}

/// Where every count of a log repeats one of the parent's, and none more often than the parent has
/// it, nothing is counted.
pub proof fn lemma_repeated_counts_are_left_out(
    state: ScanModel,
    lines: Seq<LogLine>,
    parent: Multiset<fork::LineKey>,
)
    requires
        state.filter == Some(parent),
        counts_have_keys(lines),
        count_keys(lines).subset_of(parent),
    ensures
        parser::after_lines(state, lines).events == state.events,
        parser::after_lines(state, lines).filter == Some(parent.sub(count_keys(lines))),
    decreases lines.len(),
{
    if lines.len() == 0 {
        assert(parent.sub(Multiset::empty()) =~= parent);
    } else {
        let shorter = lines.drop_last();
        let last = lines.last();
        assert forall|i: int| 0 <= i < shorter.len() && count_of(
            #[trigger] shorter[i],
        ) is Some implies wire::line_key(wire::trimmed_line(shorter[i].bytes@)) is Some by {
            assert(shorter[i] == lines[i]);
        }
        assert(count_keys(shorter).subset_of(count_keys(lines)));
        assert(count_keys(shorter).subset_of(parent));
        lemma_repeated_counts_are_left_out(state, shorter, parent);
        let before = parser::after_lines(state, shorter);
        if count_of(last) is None {
            lemma_only_counts_count(before, last);
        } else {
            lemma_count_line(before, last);
            assert(count_of(lines[lines.len() - 1]) is Some);
            let key = wire::line_key(wire::trimmed_line(last.bytes@))->0;
            let rest = parent.sub(count_keys(shorter));
            assert(count_keys(lines).count(key) <= parent.count(key));
            assert(rest.count(key) > 0);
            assert(rest.remove(key) =~= parent.sub(count_keys(lines)));
        }
    }
}

/// Whether the lines that a log counts are those that a filter of it holds.
pub open spec fn counts_are_filtered(lines: Seq<LogLine>) -> bool {
    forall|i: int|
        0 <= i < lines.len() ==> (count_of(#[trigger] lines[i]) is Some <==> fork::makes_count(
            lines[i],
        ))
}

proof fn lemma_filter_of_counts(lines: Seq<LogLine>)
    requires
        counts_have_keys(lines),
        counts_are_filtered(lines),
    ensures
        fork::counted_keys(lines, None) == count_keys(lines),
    decreases lines.len(),
{
    if lines.len() > 0 {
        let shorter = lines.drop_last();
        assert forall|i: int| 0 <= i < shorter.len() && count_of(
            #[trigger] shorter[i],
        ) is Some implies wire::line_key(wire::trimmed_line(shorter[i].bytes@)) is Some by {
            assert(shorter[i] == lines[i]);
        }
        assert forall|i: int| 0 <= i < shorter.len() implies (count_of(
            #[trigger] shorter[i],
        ) is Some <==> fork::makes_count(shorter[i])) by {
            assert(shorter[i] == lines[i]);
        }
        lemma_filter_of_counts(shorter);
        let last = lines[lines.len() - 1];
        assert(count_of(last) is Some <==> fork::makes_count(last));
    }
}

/// A log that is read with the filter of its own lines counts nothing: a fork that repeats its
/// parent line by line adds no usage.
pub proof fn lemma_repeating_the_parent_counts_nothing(lines: Seq<LogLine>)
    requires
        counts_have_keys(lines),
        counts_are_filtered(lines),
    ensures
        parser::events_of(lines, Some(fork::counted_keys(lines, None))) == Seq::<
            EventModel,
        >::empty(),
{
    let parent = fork::counted_keys(lines, None);
    lemma_filter_of_counts(lines);
    lemma_repeated_counts_are_left_out(parser::scan_start(Some(parent)), lines, parent);
}

/// However a log goes on, the lines that it may still repeat are among those that the parent has.
pub proof fn lemma_repeats_no_more_than_the_parent(
    lines: Seq<LogLine>,
    parent: Multiset<fork::LineKey>,
)
    ensures
        parser::after_lines(parser::scan_start(Some(parent)), lines).filter matches Some(rest)
            && rest.subset_of(parent),
    decreases lines.len(),
{
    if lines.len() > 0 {
        lemma_repeats_no_more_than_the_parent(lines.drop_last(), parent);
        let before = parser::after_lines(parser::scan_start(Some(parent)), lines.drop_last());
        if count_of(lines.last()) is None {
            lemma_only_counts_count(before, lines.last());
        } else {
            lemma_count_line(before, lines.last());
        }
    }
}

/// Two lines that differ in nothing but their timestamps have the same key.
pub proof fn lemma_key_ignores_timestamp(
    a: Seq<(Seq<char>, Seq<char>)>,
    b: Seq<(Seq<char>, Seq<char>)>,
)
    requires
        a.len() == b.len(),
        forall|i: int| 0 <= i < a.len() ==> (#[trigger] a[i]).0 == b[i].0,
        forall|i: int| 0 <= i < a.len() && (#[trigger] a[i]).0 != "timestamp"@ ==> a[i] == b[i],
    ensures
        wire::without_member(a, "timestamp"@) == wire::without_member(b, "timestamp"@),
    decreases a.len(),
{
    reveal(Seq::filter);
    if a.len() > 0 {
        assert(a[a.len() - 1] == a.last());
        assert(b[a.len() - 1] == b.last());
        assert forall|i: int| 0 <= i < a.len() - 1 implies (#[trigger] a.drop_last()[i]).0
            == b.drop_last()[i].0 by {
            assert(a[i].0 == b[i].0);
        }
        assert forall|i: int|
            0 <= i < a.len() - 1 && (#[trigger] a.drop_last()[i]).0
                != "timestamp"@ implies a.drop_last()[i] == b.drop_last()[i] by {
            assert(a[i].0 != "timestamp"@);
        }
        lemma_key_ignores_timestamp(a.drop_last(), b.drop_last());
    } else {
        assert(a =~= b);
    }
}

/// A directory that is known is never forgotten.
pub proof fn lemma_directory_stays_known(state: ScanModel, lines: Seq<LogLine>)
    requires
        state.directory is Some,
    ensures
        parser::after_lines(state, lines).directory is Some,
    decreases lines.len(),
{
    if lines.len() > 0 {
        lemma_directory_stays_known(state, lines.drop_last());
    }
}

/// No more input is cached than there is.
pub proof fn lemma_cached_input_is_input(raw: RawUsage)
    ensures
        raw.normalized().cached_input_tokens <= raw.normalized().input_tokens,
{
}

/// The first description of a session is the one that counts, whatever lines follow.
pub proof fn lemma_first_description_counts(lines: Seq<LogLine>, more: Seq<LogLine>)
    requires
        exists|i: int| 0 <= i < lines.len() && parser::identity_of(#[trigger] lines[i]) is Some,
    ensures
        parser::first_identity(lines + more) == parser::first_identity(lines),
    decreases lines.len(),
{
    let i = choose|i: int| 0 <= i < lines.len() && parser::identity_of(#[trigger] lines[i]) is Some;
    assert((lines + more)[0] == lines[0]);
    if parser::identity_of(lines[0]) is None {
        assert((lines + more).drop_first() =~= lines.drop_first() + more);
        assert(lines.drop_first()[i - 1] == lines[i]);
        lemma_first_description_counts(lines.drop_first(), more);
    }
}

} // verus!
