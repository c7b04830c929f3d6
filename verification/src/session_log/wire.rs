//! The lines of a session log, as they are written and as they are read.

use crate::calendar;
use crate::text;
use crate::types::Usage;
use vstd::prelude::*;

verus! {

/// What a line holds that carries an event.
pub const EVENT_MSG_PATTERN: &'static str = "\"type\":\"event_msg\"";

/// What a line holds that counts tokens.
pub const TOKEN_COUNT_PATTERN: &'static str = "\"type\":\"token_count\"";

/// What a line holds that describes a turn.
pub const TURN_CONTEXT_PATTERN: &'static str = "\"type\":\"turn_context\"";

/// What a line holds that describes the session.
pub const SESSION_META_PATTERN: &'static str = "\"type\":\"session_meta\"";

/// The ending of the names of session logs.
pub const LOG_SUFFIX: &'static str = ".jsonl";

/// What a line seems to be, judged by its bytes.
#[derive(Debug, Clone, Copy, PartialEq, Eq, Structural)]
pub enum LineKindHint {
    EventMsg,
    TurnContext,
    SessionMeta,
    Other,
}

/// The form of a payload.
#[derive(Debug, Clone, Copy, PartialEq, Eq, Structural)]
pub enum PayloadForm {
    SessionMeta,
    TurnContext,
    Event,
}

/// A line of a session log: when it was written, what kind of line it is, and its payload where
/// there is one that has the form of its kind.
#[derive(Debug, Clone, PartialEq, Eq)]
pub struct LineEnvelope {
    pub timestamp: Option<String>,
    pub kind: String,
    pub payload: Option<LinePayload>,
}

/// A line as it was read: its bytes, and the envelope that they hold between the white space
/// around them, where they hold one.
#[derive(Debug, Clone, PartialEq, Eq)]
pub struct LogLine {
    pub bytes: Vec<u8>,
    pub envelope: Option<LineEnvelope>,
}

/// The payload of a line.
#[derive(Debug, Clone, PartialEq, Eq)]
pub enum LinePayload {
    SessionMeta(SessionMetaPayload),
    TurnContext(TurnContextPayload),
    Event(EventPayload),
}

/// What a line says of its session.
#[derive(Debug, Clone, PartialEq, Eq)]
pub struct SessionMetaPayload {
    pub id: Option<String>,
    pub forked_from_id: Option<String>,
    pub cwd: Option<String>,
}

/// What a line says of a turn.
#[derive(Debug, Clone, PartialEq, Eq)]
pub struct TurnContextPayload {
    pub cwd: Option<String>,
    pub model: Option<String>,
    pub model_name: Option<String>,
}

/// An event of a session.
#[derive(Debug, Clone, PartialEq, Eq)]
pub struct EventPayload {
    pub kind: String,
    pub info: Option<TokenInfo>,
    pub model: Option<String>,
    pub model_name: Option<String>,
}

/// Counts of tokens: of the last request and since the start of the session.
#[derive(Debug, Clone, PartialEq, Eq)]
pub struct TokenInfo {
    pub last_token_usage: Option<RawUsage>,
    pub total_token_usage: Option<RawUsage>,
    pub model: Option<String>,
    pub model_name: Option<String>,
}

/// Counts of tokens as a log gives them, each of which may be missing.
#[derive(Debug, Clone, Copy, PartialEq, Eq, Structural)]
pub struct RawUsage {
    pub input_tokens: Option<u64>,
    pub cached_input_tokens: Option<u64>,
    pub cache_read_input_tokens: Option<u64>,
    pub output_tokens: Option<u64>,
    pub reasoning_output_tokens: Option<u64>,
    pub total_tokens: Option<u64>,
}

/// A number, zero where it is missing.
pub open spec fn or_zero(n: Option<u64>) -> u64 {
    match n {
        Some(n) => n,
        None => 0,
    }
}

impl RawUsage {
    /// Whether the total can be told: it is given, or input and output add up within 64 bits.
    pub open spec fn has_total(self) -> bool {
        self.total_tokens is Some || or_zero(self.input_tokens) + or_zero(self.output_tokens)
            <= u64::MAX
    }

    /// The counts with the missing ones filled in: those without a value are zero, the cached input
    /// is no more than the input, and the total is input and output together.
    pub open spec fn normalized(self) -> Usage {
        let input = or_zero(self.input_tokens);
        let output = or_zero(self.output_tokens);
        let cached = if self.cached_input_tokens is Some {
            or_zero(self.cached_input_tokens)
        } else {
            or_zero(self.cache_read_input_tokens)
        };
        Usage {
            input_tokens: input,
            cached_input_tokens: if cached <= input {
                cached
            } else {
                input
            },
            output_tokens: output,
            reasoning_output_tokens: or_zero(self.reasoning_output_tokens),
            total_tokens: match self.total_tokens {
                Some(total) => total,
                None => (input + output) as u64,
            },
        }
    }

    /// Whether the total can be told without going beyond 64 bits.
    pub fn total_fits(&self) -> (fits: bool)
        ensures
            fits == self.has_total(),
    {
        self.total_tokens.is_some() || self.input_tokens.unwrap_or(0) <= u64::MAX
            - self.output_tokens.unwrap_or(0)
    }

    /// The counts with the missing ones filled in.
    pub fn normalize(self) -> (usage: Usage)
        requires
            self.has_total(),
        ensures
            usage == self.normalized(),
    {
        let input: u64 = self.input_tokens.unwrap_or(0);
        let given: u64 = match self.cached_input_tokens {
            Some(cached) => cached,
            None => self.cache_read_input_tokens.unwrap_or(0),
        };
        let cached: u64 = if given <= input {
            given
        } else {
            input
        };
        let output: u64 = self.output_tokens.unwrap_or(0);
        let reasoning: u64 = self.reasoning_output_tokens.unwrap_or(0);
        let total: u64 = match self.total_tokens {
            Some(total) => total,
            None => input + output,
        };
        Usage {
            input_tokens: input,
            cached_input_tokens: cached,
            output_tokens: output,
            reasoning_output_tokens: reasoning,
            total_tokens: total,
        }
    }
}

/// How much `current` is above `previous`, zero where it is below.
pub open spec fn above(current: u64, previous: u64) -> u64 {
    if current >= previous {
        (current - previous) as u64
    } else {
        0
    }
}

/// What was used between two states of the running totals; from the start where there is no
/// earlier state.
pub open spec fn usage_since(current: Usage, previous: Option<Usage>) -> Usage {
    let start = match previous {
        Some(previous) => previous,
        None => Usage::none(),
    };
    Usage {
        input_tokens: above(current.input_tokens, start.input_tokens),
        cached_input_tokens: above(current.cached_input_tokens, start.cached_input_tokens),
        output_tokens: above(current.output_tokens, start.output_tokens),
        reasoning_output_tokens: above(
            current.reasoning_output_tokens,
            start.reasoning_output_tokens,
        ),
        total_tokens: above(current.total_tokens, start.total_tokens),
    }
}

/// What was used between two states of the running totals.
pub fn subtract_usage(current: Usage, previous: Option<Usage>) -> (usage: Usage)
    ensures
        usage == usage_since(current, previous),
{
    let start: Usage = match previous {
        Some(previous) => previous,
        None => Usage::default(),
    };
    Usage {
        input_tokens: current.input_tokens.saturating_sub(start.input_tokens),
        cached_input_tokens: current.cached_input_tokens.saturating_sub(start.cached_input_tokens),
        output_tokens: current.output_tokens.saturating_sub(start.output_tokens),
        reasoning_output_tokens: current.reasoning_output_tokens.saturating_sub(
            start.reasoning_output_tokens,
        ),
        total_tokens: current.total_tokens.saturating_sub(start.total_tokens),
    }
}

/// The instant of an RFC 3339 date and time, in milliseconds since the start of 1970 in UTC.
pub fn parse_timestamp_unix_ms(value: &str) -> (unix_ms: Option<i64>)
    ensures
        unix_ms == calendar::rfc3339_unix_ms(value@),
        unix_ms matches Some(ms) ==> calendar::FIRST_INSTANT <= ms <= calendar::LAST_INSTANT,
{
    calendar::instant_of(value)
}

/// The instant of an optional date and time.
pub open spec fn instant(timestamp: Option<String>) -> Option<i64> {
    match timestamp {
        Some(value) => calendar::rfc3339_unix_ms(value@),
        None => None,
    }
}

/// The instant of an optional date and time.
pub fn optional_instant(timestamp: &Option<String>) -> (unix_ms: Option<i64>)
    ensures
        unix_ms == instant(*timestamp),
        unix_ms matches Some(ms) ==> calendar::FIRST_INSTANT <= ms <= calendar::LAST_INSTANT,
{
    match timestamp {
        Some(value) => parse_timestamp_unix_ms(value.as_str()),
        None => None,
    }
}

/// The first text of a list that is more than white space, without the white space around it.
pub open spec fn first_visible(candidates: Seq<Option<String>>) -> Option<Seq<char>>
    decreases candidates.len(),
{
    if candidates.len() == 0 {
        None
    } else {
        match candidates[0] {
            Some(value) if !text::is_blank(value@) => Some(text::trimmed(value@)),
            _ => first_visible(candidates.drop_first()),
        }
    }
}

/// The first text of a list that is more than white space, without the white space around it.
pub fn first_non_empty(candidates: &[Option<String>]) -> (first: Option<String>)
    ensures
        first is Some <==> first_visible(candidates@) is Some,
        first matches Some(first) ==> first_visible(candidates@) == Some(first@),
{
    let mut i: usize = 0;
    proof {
        assert(candidates@.skip(0) =~= candidates@);
    }
    while i < candidates.len()
        invariant
            i <= candidates@.len(),
            first_visible(candidates@) == first_visible(candidates@.skip(i as int)),
        decreases candidates@.len() - i,
    {
        proof {
            assert(candidates@.skip(i as int).drop_first() =~= candidates@.skip(i + 1));
            assert(candidates@.skip(i as int)[0] == candidates@[i as int]);
        }
        if let Some(value) = &candidates[i] {
            if !text::blank(value.as_str()) {
                return Some(text::trim(value.as_str()));
            }
        }
        i = i + 1;
    }
    None
}

/// The text, where there is one and it is more than white space.
pub open spec fn visible(value: Option<String>) -> Option<Seq<char>> {
    match value {
        Some(value) if !text::is_blank(value@) => Some(value@),
        _ => None,
    }
}

/// The text, where there is one and it is more than white space.
pub fn non_empty(value: Option<String>) -> (kept: Option<String>)
    ensures
        kept is Some <==> visible(value) is Some,
        kept matches Some(kept) ==> visible(value) == Some(kept@),
{
    match value {
        Some(value) => if text::blank(value.as_str()) {
            None
        } else {
            Some(value)
        },
        None => None,
    }
}

/// Whether a byte is ASCII white space: space, tab, line feed, form feed or carriage return.
pub open spec fn is_ascii_white(b: u8) -> bool {
    b == 32 || b == 9 || b == 10 || b == 12 || b == 13
}

/// The bytes without leading white space.
pub open spec fn line_start(bytes: Seq<u8>) -> Seq<u8>
    decreases bytes.len(),
{
    if bytes.len() > 0 && is_ascii_white(bytes[0]) {
        line_start(bytes.drop_first())
    } else {
        bytes
    }
}

/// The bytes without trailing white space.
pub open spec fn line_end(bytes: Seq<u8>) -> Seq<u8>
    decreases bytes.len(),
{
    if bytes.len() > 0 && is_ascii_white(bytes.last()) {
        line_end(bytes.drop_last())
    } else {
        bytes
    }
}

/// The bytes of a line without leading and trailing white space.
pub open spec fn trimmed_line(bytes: Seq<u8>) -> Seq<u8> {
    line_end(line_start(bytes))
}

fn ascii_white(b: u8) -> (white: bool)
    ensures
        white == is_ascii_white(b),
{
    b == 32 || b == 9 || b == 10 || b == 12 || b == 13
}

/// The bytes of a line without leading and trailing white space.
pub fn trim_ascii_whitespace(bytes: &[u8]) -> (trimmed: &[u8])
    ensures
        trimmed@ == trimmed_line(bytes@),
{
    let mut start: usize = 0;
    proof {
        assert(bytes@.subrange(0, bytes@.len() as int) =~= bytes@);
    }
    while start < bytes.len() && ascii_white(bytes[start])
        invariant
            start <= bytes@.len(),
            line_start(bytes@) == line_start(bytes@.subrange(start as int, bytes@.len() as int)),
        decreases bytes@.len() - start,
    {
        proof {
            assert(bytes@.subrange(start as int, bytes@.len() as int).drop_first()
                =~= bytes@.subrange(start + 1, bytes@.len() as int));
        }
        start = start + 1;
    }
    let mut end: usize = bytes.len();
    while end > start && ascii_white(bytes[end - 1])
        invariant
            start <= end <= bytes@.len(),
            trimmed_line(bytes@) == line_end(bytes@.subrange(start as int, end as int)),
        decreases end,
    {
        proof {
            assert(bytes@.subrange(start as int, end as int).drop_last() =~= bytes@.subrange(
                start as int,
                end - 1,
            ));
        }
        end = end - 1;
    }
    &bytes[start..end]
}

/// Whether `part` stands in `bytes` at a position.
pub open spec fn occurs_at(bytes: Seq<u8>, part: Seq<u8>, at: int) -> bool {
    0 <= at && at + part.len() <= bytes.len() && bytes.subrange(at, at + part.len()) == part
}

/// Whether `part` stands anywhere in `bytes`.
pub open spec fn occurs(bytes: Seq<u8>, part: Seq<u8>) -> bool {
    exists|at: int| occurs_at(bytes, part, at)
}

/// The bytes of a text.
pub open spec fn text_bytes(chars: Seq<char>) -> Seq<u8> {
    vstd::utf8::encode_utf8(chars)
}

/// `memchr::memmem::find`: the position of the first occurrence, where there is one.
#[verifier::external_body]
fn find_bytes(bytes: &[u8], part: &[u8]) -> (found: Option<usize>)
    ensures
        found matches Some(at) ==> occurs_at(bytes@, part@, at as int),
        found matches Some(at) ==> forall|i: int| 0 <= i < at ==> !occurs_at(bytes@, part@, i),
        found is None ==> forall|i: int| !occurs_at(bytes@, part@, i),
{
    memchr::memmem::find(bytes, part)
}

/// Whether the bytes hold the text.
pub(crate) fn holds_text(bytes: &[u8], part: &str) -> (held: bool)
    ensures
        held == occurs(bytes@, text_bytes(part@)),
{
    find_bytes(bytes, part.as_bytes()).is_some()
}

/// What a line seems to be: the first of the kinds whose mark stands anywhere in it.
pub open spec fn hint_of(bytes: Seq<u8>) -> LineKindHint {
    if occurs(bytes, text_bytes(EVENT_MSG_PATTERN@)) {
        LineKindHint::EventMsg
    } else if occurs(bytes, text_bytes(TURN_CONTEXT_PATTERN@)) {
        LineKindHint::TurnContext
    } else if occurs(bytes, text_bytes(SESSION_META_PATTERN@)) {
        LineKindHint::SessionMeta
    } else {
        LineKindHint::Other
    }
}

/// What a line seems to be, judged by its bytes.
pub fn line_kind_hint(bytes: &[u8]) -> (hint: LineKindHint)
    ensures
        hint == hint_of(bytes@),
{
    if holds_text(bytes, EVENT_MSG_PATTERN) {
        return LineKindHint::EventMsg;
    }
    if holds_text(bytes, TURN_CONTEXT_PATTERN) {
        return LineKindHint::TurnContext;
    }
    if holds_text(bytes, SESSION_META_PATTERN) {
        return LineKindHint::SessionMeta;
    }
    LineKindHint::Other
}

/// The form that the payload of a line of a kind has, where the kind is one of interest.
pub open spec fn form_of(kind: Seq<char>) -> Option<PayloadForm> {
    if kind == "session_meta"@ {
        Some(PayloadForm::SessionMeta)
    } else if kind == "turn_context"@ {
        Some(PayloadForm::TurnContext)
    } else if kind == "event_msg"@ {
        Some(PayloadForm::Event)
    } else {
        None
    }
}

/// The form that the payload of a line of a kind has, where the kind is one of interest.
pub fn payload_form(kind: &str) -> (form: Option<PayloadForm>)
    ensures
        form == form_of(kind@),
{
    if text::same_text(kind, "session_meta") {
        Some(PayloadForm::SessionMeta)
    } else if text::same_text(kind, "turn_context") {
        Some(PayloadForm::TurnContext)
    } else if text::same_text(kind, "event_msg") {
        Some(PayloadForm::Event)
    } else {
        None
    }
}

/// `std::str::from_utf8`: it succeeds exactly on bytes that are valid UTF-8.
#[verifier::external_body]
pub(crate) fn is_utf8(bytes: &[u8]) -> (valid: bool)
    ensures
        valid == vstd::utf8::valid_utf8(bytes@),
{
    std::str::from_utf8(bytes).is_ok()
}

/// A member of a JSON object: its name and the compact text of its value.
#[derive(Debug, Clone, PartialEq, Eq)]
pub struct JsonMember {
    pub name: String,
    pub value: String,
}

impl View for JsonMember {
    type V = (Seq<char>, Seq<char>);

    open spec fn view(&self) -> (Seq<char>, Seq<char>) {
        (self.name@, self.value@)
    }
}

/// The names and values of members.
pub open spec fn member_texts(members: Seq<JsonMember>) -> Seq<(Seq<char>, Seq<char>)> {
    members.map_values(|member: JsonMember| member@)
}

/// The members of the JSON object that bytes hold: the names and the compact texts of the values.
pub uninterp spec fn json_members(bytes: Seq<u8>) -> Option<Seq<(Seq<char>, Seq<char>)>>;

/// `serde_json::from_slice` into a `Value`: the members of an object, in the order in which
/// `serde_json` keeps them, each value in the compact form in which it is written again; nothing
/// where the bytes are no JSON or no object.
#[verifier::external_body]
fn read_members(bytes: &[u8]) -> (members: Option<Vec<JsonMember>>)
    ensures
        members is Some <==> json_members(bytes@) is Some,
        members matches Some(members) ==> json_members(bytes@) == Some(member_texts(members@)),
{
    match serde_json::from_slice::<serde_json::Value>(bytes) {
        Ok(serde_json::Value::Object(members)) => Some(
            members.into_iter().map(
                |member| JsonMember { name: member.0, value: member.1.to_string() },
            ).collect(),
        ),
        _ => None,
    }
}

/// The members without those of the name.
pub open spec fn without_member(
    members: Seq<(Seq<char>, Seq<char>)>,
    name: Seq<char>,
) -> Seq<(Seq<char>, Seq<char>)> {
    members.filter(|member: (Seq<char>, Seq<char>)| member.0 != name)
}

/// What tells a line from others apart from its timestamp: the other members of its object.
pub open spec fn line_key(bytes: Seq<u8>) -> Option<Seq<(Seq<char>, Seq<char>)>> {
    match json_members(bytes) {
        Some(members) => Some(without_member(members, "timestamp"@)),
        None => None,
    }
}

/// The members of the line's object but for its timestamp.
pub fn normalized_line_key(trimmed: &[u8]) -> (key: Option<Vec<JsonMember>>)
    ensures
        key is Some <==> line_key(trimmed@) is Some,
        key matches Some(key) ==> line_key(trimmed@) == Some(member_texts(key@)),
{
    match read_members(trimmed) {
        Some(members) => Some(remove_member(members, "timestamp")),
        None => None,
    }
}

/// The members of an object without those of the name.
pub fn remove_member(members: Vec<JsonMember>, name: &str) -> (kept: Vec<JsonMember>)
    ensures
        member_texts(kept@) == without_member(member_texts(members@), name@),
{
    let ghost all = member_texts(members@);
    let mut kept: Vec<JsonMember> = Vec::new();
    proof {
        reveal(Seq::filter);
        assert(member_texts(kept@) =~= without_member(all.take(0), name@));
    }
    for member in it: members
        invariant
            all == member_texts(it.seq()),
            member_texts(kept@) == without_member(all.take(it.index() as int), name@),
    {
        let ghost before = kept@;
        let ghost i = it.index() as int;
        proof {
            reveal(Seq::filter);
            assert(all[i] == member@);
            assert(all.take(i + 1).drop_last() =~= all.take(i));
        }
        if !text::same_text(member.name.as_str(), name) {
            kept.push(member);
            proof {
                assert(member_texts(kept@) =~= member_texts(before).push(all[i]));
            }
        }
    }
    proof {
        assert(all.take(all.len() as int) =~= all);
    }
    kept
}

} // verus!
