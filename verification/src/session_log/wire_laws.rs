//! What holds of the parts of log lines, whatever a line holds.

use crate::calendar;
use crate::session_log::wire;
use crate::session_log::wire::{JsonMember, LineKindHint, PayloadForm, RawUsage};
use crate::text;
use crate::types::Usage;
use vstd::prelude::*;

verus! {

/// Counts that a log gives are kept, and those that it leaves out are none: the input, the output
/// and the reasoning are the given numbers, the total is the given one or else input and output
/// together, and the cached input is the given one as far as there is so much input.
pub proof fn lemma_given_counts_are_kept(raw: RawUsage, usage: Usage)
    requires
        call_ensures(RawUsage::normalize, (raw,), usage),
    ensures
        raw.input_tokens matches Some(n) ==> usage.input_tokens == n,
        raw.input_tokens is None ==> usage.input_tokens == 0,
        raw.output_tokens matches Some(n) ==> usage.output_tokens == n,
        raw.output_tokens is None ==> usage.output_tokens == 0,
        raw.reasoning_output_tokens matches Some(n) ==> usage.reasoning_output_tokens == n,
        raw.reasoning_output_tokens is None ==> usage.reasoning_output_tokens == 0,
        raw.total_tokens matches Some(n) ==> usage.total_tokens == n,
        raw.total_tokens is None && usage.input_tokens + usage.output_tokens <= u64::MAX
            ==> usage.total_tokens == usage.input_tokens + usage.output_tokens,
        raw.cached_input_tokens matches Some(n) ==> usage.cached_input_tokens == if n
            <= usage.input_tokens {
            n
        } else {
            usage.input_tokens
        },
        raw.cached_input_tokens is None ==> (raw.cache_read_input_tokens matches Some(n)
            ==> usage.cached_input_tokens == if n <= usage.input_tokens {
            n
        } else {
            usage.input_tokens
        }),
        raw.cached_input_tokens is None && raw.cache_read_input_tokens is None
            ==> usage.cached_input_tokens == 0,
{
}

/// Counts that are given in full, with no more cached input than input, come out as they are.
pub proof fn lemma_full_counts_come_out_as_they_are(usage: Usage)
    requires
        usage.cached_input_tokens <= usage.input_tokens,
    ensures
        (RawUsage {
            input_tokens: Some(usage.input_tokens),
            cached_input_tokens: Some(usage.cached_input_tokens),
            cache_read_input_tokens: None,
            output_tokens: Some(usage.output_tokens),
            reasoning_output_tokens: Some(usage.reasoning_output_tokens),
            total_tokens: Some(usage.total_tokens),
        }).normalized() == usage,
        (RawUsage {
            input_tokens: Some(usage.input_tokens),
            cached_input_tokens: None,
            cache_read_input_tokens: Some(usage.cached_input_tokens),
            output_tokens: Some(usage.output_tokens),
            reasoning_output_tokens: Some(usage.reasoning_output_tokens),
            total_tokens: Some(usage.total_tokens),
        }).normalized() == usage,
{
}

/// A total can be told unless it is left out and input and output together go beyond 64 bits.
pub proof fn lemma_total_can_be_told(raw: &RawUsage, fits: bool)
    requires
        call_ensures(RawUsage::total_fits, (raw,), fits),
    ensures
        raw.total_tokens is Some ==> fits,
        raw.input_tokens is None || raw.output_tokens is None ==> fits,
        raw.total_tokens is None ==> (raw.input_tokens matches Some(input)
            ==> (raw.output_tokens matches Some(output) ==> (fits <==> input + output
            <= u64::MAX))),
{
}

/// Usage since an earlier state of running totals makes up, together with that state, the present
/// one, count by count; a count that went down was not used at all.
pub proof fn lemma_usage_since_is_growth(current: Usage, earlier: Usage, used: Usage)
    requires
        call_ensures(wire::subtract_usage, (current, Some(earlier)), used),
    ensures
        current.input_tokens >= earlier.input_tokens ==> earlier.input_tokens + used.input_tokens
            == current.input_tokens,
        current.input_tokens <= earlier.input_tokens ==> used.input_tokens == 0,
        current.cached_input_tokens >= earlier.cached_input_tokens ==> earlier.cached_input_tokens
            + used.cached_input_tokens == current.cached_input_tokens,
        current.cached_input_tokens <= earlier.cached_input_tokens ==> used.cached_input_tokens
            == 0,
        current.output_tokens >= earlier.output_tokens ==> earlier.output_tokens
            + used.output_tokens == current.output_tokens,
        current.output_tokens <= earlier.output_tokens ==> used.output_tokens == 0,
        current.reasoning_output_tokens >= earlier.reasoning_output_tokens
            ==> earlier.reasoning_output_tokens + used.reasoning_output_tokens
            == current.reasoning_output_tokens,
        current.reasoning_output_tokens <= earlier.reasoning_output_tokens
            ==> used.reasoning_output_tokens == 0,
        current.total_tokens >= earlier.total_tokens ==> earlier.total_tokens + used.total_tokens
            == current.total_tokens,
        current.total_tokens <= earlier.total_tokens ==> used.total_tokens == 0,
{
}

/// Without an earlier state, all of the running totals were used.
pub proof fn lemma_usage_from_the_start(current: Usage, used: Usage)
    requires
        call_ensures(wire::subtract_usage, (current, None), used),
    ensures
        used == current,
{
}

/// A timestamp that is missing gives no instant; one that is there gives that of its text.
pub proof fn lemma_instant_of_timestamp(timestamp: &Option<String>, unix_ms: Option<i64>)
    requires
        call_ensures(wire::optional_instant, (timestamp,), unix_ms),
    ensures
        timestamp is None ==> unix_ms is None,
        timestamp matches Some(value) ==> unix_ms == calendar::rfc3339_unix_ms(value@),
{
}

/// Whether a value has a character that can be seen.
pub open spec fn can_be_seen(value: Option<String>) -> bool {
    value matches Some(value) && exists|i: int|
        0 <= i < value@.len() && !text::is_white(#[trigger] value@[i])
}

/// A value is kept as it is exactly when it has a character that can be seen.
pub proof fn lemma_visible_values_are_kept(value: Option<String>, kept: Option<String>)
    requires
        call_ensures(wire::non_empty, (value,), kept),
    ensures
        kept is Some <==> can_be_seen(value),
        kept matches Some(kept) ==> value matches Some(value) && kept@ == value@,
{
}

/// Of some candidates, the first that has a character that can be seen is taken, without the white
/// space around it, and none of those after it.
pub proof fn lemma_first_seen_is_taken(
    candidates: &[Option<String>],
    first: Option<String>,
    at: int,
)
    requires
        call_ensures(wire::first_non_empty, (candidates,), first),
        0 <= at < candidates@.len(),
        can_be_seen(candidates@[at]),
        forall|i: int| 0 <= i < at ==> !can_be_seen(#[trigger] candidates@[i]),
    ensures
        first matches Some(first) && first@ == text::trimmed(candidates@[at]->0@),
{
    lemma_first_visible_at(candidates@, at);
}

/// Where no candidate has a character that can be seen, none is taken.
pub proof fn lemma_unseen_are_not_taken(candidates: &[Option<String>], first: Option<String>)
    requires
        call_ensures(wire::first_non_empty, (candidates,), first),
        forall|i: int| 0 <= i < candidates@.len() ==> !can_be_seen(#[trigger] candidates@[i]),
    ensures
        first is None,
{
    lemma_none_visible(candidates@);
}

pub(crate) proof fn lemma_first_visible_at(candidates: Seq<Option<String>>, at: int)
    requires
        0 <= at < candidates.len(),
        can_be_seen(candidates[at]),
        forall|i: int| 0 <= i < at ==> !can_be_seen(#[trigger] candidates[i]),
    ensures
        wire::first_visible(candidates) == Some(text::trimmed(candidates[at]->0@)),
    decreases candidates.len(),
{
    if at > 0 {
        assert(!can_be_seen(candidates[0]));
        let rest = candidates.drop_first();
        assert forall|i: int| 0 <= i < at - 1 implies !can_be_seen(#[trigger] rest[i]) by {
            assert(rest[i] == candidates[i + 1]);
        }
        lemma_first_visible_at(rest, at - 1);
    }
}

pub(crate) proof fn lemma_none_visible(candidates: Seq<Option<String>>)
    requires
        forall|i: int| 0 <= i < candidates.len() ==> !can_be_seen(#[trigger] candidates[i]),
    ensures
        wire::first_visible(candidates) is None,
    decreases candidates.len(),
{
    if candidates.len() > 0 {
        assert(!can_be_seen(candidates[0]));
        let rest = candidates.drop_first();
        assert forall|i: int| 0 <= i < rest.len() implies !can_be_seen(#[trigger] rest[i]) by {
            assert(rest[i] == candidates[i + 1]);
        }
        lemma_none_visible(rest);
    }
}

/// Whether a byte is a space, a tab, a line feed, a form feed or a carriage return.
pub open spec fn is_space(b: u8) -> bool {
    seq![32u8, 9u8, 10u8, 12u8, 13u8].contains(b)
}

proof fn lemma_is_space(b: u8)
    ensures
        wire::is_ascii_white(b) == is_space(b),
{
    let spaces = seq![32u8, 9u8, 10u8, 12u8, 13u8];
    assert(spaces[0] == 32 && spaces[1] == 9 && spaces[2] == 10 && spaces[3] == 12 && spaces[4]
        == 13);
}

proof fn lemma_line_start(bytes: Seq<u8>) -> (from: int)
    ensures
        0 <= from <= bytes.len(),
        wire::line_start(bytes) == bytes.skip(from),
        forall|i: int| 0 <= i < from ==> is_space(#[trigger] bytes[i]),
        from < bytes.len() ==> !is_space(bytes[from]),
    decreases bytes.len(),
{
    if bytes.len() > 0 {
        lemma_is_space(bytes[0]);
    }
    if bytes.len() > 0 && wire::is_ascii_white(bytes[0]) {
        let rest = bytes.drop_first();
        let from = lemma_line_start(rest);
        assert(rest.skip(from) =~= bytes.skip(from + 1));
        assert forall|i: int| 0 <= i < from + 1 implies is_space(#[trigger] bytes[i]) by {
            if i > 0 {
                assert(rest[i - 1] == bytes[i]);
            }
        }
        if from + 1 < bytes.len() {
            assert(rest[from] == bytes[from + 1]);
        }
        from + 1
    } else {
        assert(bytes.skip(0) =~= bytes);
        0
    }
}

proof fn lemma_line_end(bytes: Seq<u8>) -> (to: int)
    ensures
        0 <= to <= bytes.len(),
        wire::line_end(bytes) == bytes.take(to),
        forall|i: int| to <= i < bytes.len() ==> is_space(#[trigger] bytes[i]),
        to > 0 ==> !is_space(bytes[to - 1]),
    decreases bytes.len(),
{
    if bytes.len() > 0 {
        lemma_is_space(bytes.last());
    }
    if bytes.len() > 0 && wire::is_ascii_white(bytes.last()) {
        let rest = bytes.drop_last();
        let to = lemma_line_end(rest);
        assert(rest.take(to) =~= bytes.take(to));
        assert forall|i: int| to <= i < bytes.len() implies is_space(#[trigger] bytes[i]) by {
            if i < rest.len() {
                assert(rest[i] == bytes[i]);
            }
        }
        to
    } else {
        assert(bytes.take(bytes.len() as int) =~= bytes);
        bytes.len() as int
    }
}

/// Of the bytes of a line, what is left is the part between the spaces at its ends: all bytes
/// before and after it are spaces, and it neither starts nor ends with one.
pub proof fn lemma_spaces_around_are_left_out(bytes: &[u8], trimmed: &[u8]) -> (part: (int, int))
    requires
        call_ensures(wire::trim_ascii_whitespace, (bytes,), trimmed),
    ensures
        0 <= part.0 <= part.1 <= bytes@.len(),
        trimmed@ == bytes@.subrange(part.0, part.1),
        forall|i: int| 0 <= i < part.0 ==> is_space(#[trigger] bytes@[i]),
        forall|i: int| part.1 <= i < bytes@.len() ==> is_space(#[trigger] bytes@[i]),
        trimmed@.len() > 0 ==> !is_space(trimmed@[0]) && !is_space(trimmed@.last()),
{
    let from = lemma_line_start(bytes@);
    let start = bytes@.skip(from);
    let to = lemma_line_end(start);
    assert(start.take(to) =~= bytes@.subrange(from, from + to));
    assert forall|i: int| from + to <= i < bytes@.len() implies is_space(#[trigger] bytes@[i]) by {
        assert(start[i - from] == bytes@[i]);
    }
    if to > 0 {
        assert(start[to - 1] == bytes@[from + to - 1]);
        assert(start[0] == bytes@[from]);
    }
    (from, from + to)
}

/// Whether the bytes hold those of a text somewhere.
pub open spec fn hold(bytes: Seq<u8>, part: Seq<char>) -> bool {
    exists|at: int|
        0 <= at && at + vstd::utf8::encode_utf8(part).len() <= bytes.len()
            && #[trigger] bytes.subrange(at, at + vstd::utf8::encode_utf8(part).len())
            == vstd::utf8::encode_utf8(part)
}

pub(crate) proof fn lemma_hold(bytes: Seq<u8>, part: Seq<char>)
    ensures
        wire::occurs(bytes, wire::text_bytes(part)) == hold(bytes, part),
{
    let n = vstd::utf8::encode_utf8(part).len();
    if wire::occurs(bytes, wire::text_bytes(part)) {
        let at = choose|at: int| wire::occurs_at(bytes, wire::text_bytes(part), at);
        assert(bytes.subrange(at, at + n) == vstd::utf8::encode_utf8(part));
    }
    if hold(bytes, part) {
        let at = choose|at: int|
            0 <= at && at + n <= bytes.len() && #[trigger] bytes.subrange(at, at + n)
                == vstd::utf8::encode_utf8(part);
        assert(wire::occurs_at(bytes, wire::text_bytes(part), at));
    }
}

/// A line is taken for an event if its bytes say so anywhere, else for a turn, else for the
/// description of a session, and else for neither.
pub proof fn lemma_bytes_tell_the_kind(bytes: &[u8], hint: LineKindHint)
    requires
        call_ensures(wire::line_kind_hint, (bytes,), hint),
    ensures
        hint == LineKindHint::EventMsg <==> hold(bytes@, "\"type\":\"event_msg\""@),
        hint == LineKindHint::TurnContext <==> hold(bytes@, "\"type\":\"turn_context\""@) && !hold(
            bytes@,
            "\"type\":\"event_msg\""@,
        ),
        hint == LineKindHint::SessionMeta <==> hold(bytes@, "\"type\":\"session_meta\""@) && !hold(
            bytes@,
            "\"type\":\"event_msg\""@,
        ) && !hold(bytes@, "\"type\":\"turn_context\""@),
{
    lemma_hold(bytes@, "\"type\":\"event_msg\""@);
    lemma_hold(bytes@, "\"type\":\"turn_context\""@);
    lemma_hold(bytes@, "\"type\":\"session_meta\""@);
}

/// The form of a payload is told by the kind of its line.
pub proof fn lemma_kind_tells_the_form(kind: &str, form: Option<PayloadForm>)
    requires
        call_ensures(wire::payload_form, (kind,), form),
    ensures
        form == Some(PayloadForm::Event) <==> kind@ == "event_msg"@,
        form == Some(PayloadForm::TurnContext) <==> kind@ == "turn_context"@,
        form == Some(PayloadForm::SessionMeta) <==> kind@ == "session_meta"@,
{
    reveal_strlit("session_meta");
    reveal_strlit("turn_context");
    reveal_strlit("event_msg");
    assert("session_meta"@[0] == 's');
    assert("turn_context"@[0] == 't');
    assert("event_msg"@[0] == 'e');
}

/// The members of an object without those of a name: each other member is kept, and in its place.
pub proof fn lemma_only_the_named_member_goes(
    first: Seq<(Seq<char>, Seq<char>)>,
    value: Seq<char>,
    second: Seq<(Seq<char>, Seq<char>)>,
    name: Seq<char>,
)
    requires
        forall|i: int| 0 <= i < first.len() ==> (#[trigger] first[i]).0 != name,
        forall|i: int| 0 <= i < second.len() ==> (#[trigger] second[i]).0 != name,
    ensures
        wire::without_member(first.push((name, value)) + second, name) == first + second,
        wire::without_member(first + second, name) == first + second,
{
    let keep = |member: (Seq<char>, Seq<char>)| member.0 != name;
    let gone = seq![(name, value)];
    lemma_all_kept(first, name);
    lemma_all_kept(second, name);
    reveal_with_fuel(Seq::filter, 2);
    assert(gone.drop_last() =~= Seq::<(Seq<char>, Seq<char>)>::empty());
    assert(gone.filter(keep) =~= Seq::<(Seq<char>, Seq<char>)>::empty());
    assert(first.push((name, value)) + second =~= first + (gone + second));
    Seq::filter_distributes_over_add(first, gone + second, keep);
    Seq::filter_distributes_over_add(gone, second, keep);
    Seq::filter_distributes_over_add(first, second, keep);
    assert(Seq::<(Seq<char>, Seq<char>)>::empty() + second =~= second);
}

proof fn lemma_all_kept(members: Seq<(Seq<char>, Seq<char>)>, name: Seq<char>)
    requires
        forall|i: int| 0 <= i < members.len() ==> (#[trigger] members[i]).0 != name,
    ensures
        wire::without_member(members, name) == members,
    decreases members.len(),
{
    reveal(Seq::filter);
    if members.len() > 0 {
        let fewer = members.drop_last();
        assert forall|i: int| 0 <= i < fewer.len() implies (#[trigger] fewer[i]).0 != name by {
            assert(fewer[i] == members[i]);
        }
        lemma_all_kept(fewer, name);
        assert(members[members.len() - 1].0 != name);
        assert(members =~= fewer.push(members.last()));
    }
}

/// The key of a line is what its object holds besides the timestamp: a line that is no object has
/// none.
pub proof fn lemma_key_is_all_but_the_timestamp(
    trimmed: &[u8],
    key: Option<Vec<JsonMember>>,
    first: Seq<(Seq<char>, Seq<char>)>,
    value: Seq<char>,
    second: Seq<(Seq<char>, Seq<char>)>,
)
    requires
        call_ensures(wire::normalized_line_key, (trimmed,), key),
        forall|i: int| 0 <= i < first.len() ==> (#[trigger] first[i]).0 != "timestamp"@,
        forall|i: int| 0 <= i < second.len() ==> (#[trigger] second[i]).0 != "timestamp"@,
    ensures
        wire::json_members(trimmed@) is None ==> key is None,
        wire::json_members(trimmed@) == Some(first.push(("timestamp"@, value)) + second)
            || wire::json_members(trimmed@) == Some(first + second) ==> (key matches Some(key)
            && wire::member_texts(key@) == first + second),
{
    lemma_only_the_named_member_goes(first, value, second, "timestamp"@);
}

/// The members that are kept are those of other names, in their order.
pub proof fn lemma_members_of_other_names(
    members: Vec<JsonMember>,
    name: &str,
    kept: Vec<JsonMember>,
    first: Seq<(Seq<char>, Seq<char>)>,
    value: Seq<char>,
    second: Seq<(Seq<char>, Seq<char>)>,
)
    requires
        call_ensures(wire::remove_member, (members, name), kept),
        forall|i: int| 0 <= i < first.len() ==> (#[trigger] first[i]).0 != name@,
        forall|i: int| 0 <= i < second.len() ==> (#[trigger] second[i]).0 != name@,
    ensures
        wire::member_texts(members@) == first.push((name@, value)) + second
            ==> wire::member_texts(kept@) == first + second,
        wire::member_texts(members@) == first + second ==> wire::member_texts(kept@) == first
            + second,
{
    lemma_only_the_named_member_goes(first, value, second, name@);
}

/// A timestamp stands for the same instant by itself and in a line.
pub proof fn lemma_timestamps(
    value: &str,
    timestamp: &Option<String>,
    at: Option<i64>,
    instant: Option<i64>,
)
    requires
        call_ensures(wire::parse_timestamp_unix_ms, (value,), at),
        call_ensures(wire::optional_instant, (timestamp,), instant),
        timestamp matches Some(text) && text@ == value@,
    ensures
        at == instant,
        at == calendar::rfc3339_unix_ms(value@),
{
}

} // verus!
