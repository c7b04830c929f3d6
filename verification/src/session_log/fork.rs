//! What a forked session repeats of the session that it was forked from.

use crate::ordering;
use crate::ordering::Ranked;
use crate::session_log::wire;
use crate::session_log::wire::{JsonMember, LineKindHint, LinePayload, LogLine, SessionMetaPayload};
use crate::text;
use vstd::multiset::Multiset;
use vstd::prelude::*;

verus! {

/// A pause longer than this, in milliseconds, ends the repeated start of a forked session.
pub const INHERITED_PREFIX_END_GAP_MS: i64 = 1_000;

/// What tells one counting line from another: the members of its object but for the timestamp.
pub type LineKey = Seq<(Seq<char>, Seq<char>)>;

/// Whether an instant is at or before the cutoff, where there is one.
pub open spec fn in_time(unix_ms: Option<i64>, cutoff: Option<i64>) -> bool {
    match cutoff {
        Some(cutoff) => unix_ms matches Some(ms) && ms <= cutoff,
        None => true,
    }
}

/// Whether an instant is at or before the cutoff, where there is one.
pub fn is_in_time(unix_ms: Option<i64>, cutoff: Option<i64>) -> (is_in: bool)
    ensures
        is_in == in_time(unix_ms, cutoff),
{
    match (unix_ms, cutoff) {
        (_, None) => true,
        (Some(unix_ms), Some(cutoff)) => unix_ms <= cutoff,
        (None, Some(_)) => false,
    }
}

/// Whether a line's bytes look like a count of tokens.
pub open spec fn looks_like_count(trimmed: Seq<u8>) -> bool {
    &&& trimmed.len() > 0
    &&& wire::hint_of(trimmed) == LineKindHint::EventMsg
    &&& wire::occurs(trimmed, wire::text_bytes(wire::TOKEN_COUNT_PATTERN@))
}

/// Whether a line of a parent session counts tokens.
pub open spec fn makes_count(line: LogLine) -> bool {
    &&& looks_like_count(wire::trimmed_line(line.bytes@))
    &&& line.envelope matches Some(envelope)
    &&& envelope.kind@ == "event_msg"@
    &&& envelope.payload matches Some(LinePayload::Event(event))
    &&& event.kind@ == "token_count"@
}

/// The key of a line of the parent session that counts tokens in time.
pub open spec fn counted_key(line: LogLine, cutoff: Option<i64>) -> Option<LineKey> {
    if makes_count(line) && in_time(wire::instant(line.envelope->0.timestamp), cutoff) {
        wire::line_key(wire::trimmed_line(line.bytes@))
    } else {
        None
    }
}

/// The keys of the lines of the parent session that count tokens in time, each as often as it
/// occurs.
pub open spec fn counted_keys(lines: Seq<LogLine>, cutoff: Option<i64>) -> Multiset<LineKey>
    decreases lines.len(),
{
    if lines.len() == 0 {
        Multiset::empty()
    } else {
        let before = counted_keys(lines.drop_last(), cutoff);
        match counted_key(lines.last(), cutoff) {
            Some(key) => before.insert(key),
            None => before,
        }
    }
}

/// Whether a member comes before another: its name does, or its value where the names are the same.
pub open spec fn member_precedes(a: (Seq<char>, Seq<char>), b: (Seq<char>, Seq<char>)) -> bool {
    if a.0 == b.0 {
        text::precedes(a.1, b.1)
    } else {
        text::precedes(a.0, b.0)
    }
}

/// Whether a key is equal to another or comes before it, in the lexicographic order of the members.
pub open spec fn key_up_to(a: LineKey, b: LineKey) -> bool
    decreases a.len(),
{
    if a.len() == 0 {
        true
    } else if b.len() == 0 {
        false
    } else if a[0] == b[0] {
        key_up_to(a.drop_first(), b.drop_first())
    } else {
        member_precedes(a[0], b[0])
    }
}

proof fn lemma_member_order(
    a: (Seq<char>, Seq<char>),
    b: (Seq<char>, Seq<char>),
    c: (Seq<char>, Seq<char>),
)
    ensures
        member_precedes(a, b) || member_precedes(b, a) || a == b,
        !member_precedes(a, a),
        member_precedes(a, b) && member_precedes(b, c) ==> member_precedes(a, c),
{
    text::lemma_precedes_total(a.0, b.0);
    text::lemma_precedes_total(a.1, b.1);
    text::lemma_precedes_irreflexive(a.1);
    if member_precedes(a, b) && member_precedes(b, c) {
        if a.0 == b.0 && b.0 == c.0 {
            text::lemma_precedes_transitive(a.1, b.1, c.1);
        } else if a.0 != b.0 && b.0 != c.0 {
            text::lemma_precedes_transitive(a.0, b.0, c.0);
            text::lemma_precedes_irreflexive(a.0);
        }
    }
}

proof fn lemma_keys_total(a: LineKey, b: LineKey)
    ensures
        key_up_to(a, b) || key_up_to(b, a),
    decreases a.len(),
{
    if a.len() > 0 && b.len() > 0 {
        lemma_member_order(a[0], b[0], a[0]);
        if a[0] == b[0] {
            lemma_keys_total(a.drop_first(), b.drop_first());
        }
    }
}

proof fn lemma_keys_transitive(a: LineKey, b: LineKey, c: LineKey)
    requires
        key_up_to(a, b),
        key_up_to(b, c),
    ensures
        key_up_to(a, c),
    decreases a.len(),
{
    if a.len() > 0 {
        lemma_member_order(a[0], b[0], c[0]);
        lemma_member_order(a[0], b[0], a[0]);
        if a[0] == b[0] && b[0] == c[0] {
            lemma_keys_transitive(a.drop_first(), b.drop_first(), c.drop_first());
        }
    }
}

/// Two keys that come before each other are one.
proof fn lemma_one_key(a: LineKey, b: LineKey)
    requires
        key_up_to(a, b),
        key_up_to(b, a),
    ensures
        a == b,
    decreases a.len(),
{
    if a.len() > 0 {
        lemma_member_order(a[0], b[0], a[0]);
        lemma_one_key(a.drop_first(), b.drop_first());
        assert(a =~= seq![a[0]] + a.drop_first());
        assert(b =~= seq![b[0]] + b.drop_first());
    } else {
        assert(a =~= b);
    }
}

/// Lists of members are ranked as the keys that they make.
impl Ranked for Vec<JsonMember> {
    open spec fn ranks_up_to(self, other: Vec<JsonMember>) -> bool {
        key_up_to(wire::member_texts(self@), wire::member_texts(other@))
    }

    fn is_up_to(&self, other: &Vec<JsonMember>) -> (up_to: bool) {
        let ghost left = wire::member_texts(self@);
        let ghost right = wire::member_texts(other@);
        let mut i: usize = 0;
        proof {
            assert(left.skip(0) =~= left);
            assert(right.skip(0) =~= right);
        }
        while i < self.len()
            invariant
                i <= self@.len(),
                left == wire::member_texts(self@),
                right == wire::member_texts(other@),
                i <= right.len(),
                key_up_to(left, right) == key_up_to(left.skip(i as int), right.skip(i as int)),
            decreases self@.len() - i,
        {
            if i >= other.len() {
                return false;
            }
            let (a, b) = (&self[i], &other[i]);
            proof {
                assert(left.skip(i as int)[0] == a@);
                assert(right.skip(i as int)[0] == b@);
                assert(left.skip(i as int).drop_first() =~= left.skip(i + 1));
                assert(right.skip(i as int).drop_first() =~= right.skip(i + 1));
            }
            if !text::same_text(a.name.as_str(), b.name.as_str()) {
                return text::text_precedes(a.name.as_str(), b.name.as_str());
            }
            if !text::same_text(a.value.as_str(), b.value.as_str()) {
                return text::text_precedes(a.value.as_str(), b.value.as_str());
            }
            i = i + 1;
        }
        true
    }

    proof fn ranks_total(a: Vec<JsonMember>, b: Vec<JsonMember>) {
        lemma_keys_total(wire::member_texts(a@), wire::member_texts(b@));
    }

    proof fn ranks_transitive(a: Vec<JsonMember>, b: Vec<JsonMember>, c: Vec<JsonMember>) {
        lemma_keys_transitive(
            wire::member_texts(a@),
            wire::member_texts(b@),
            wire::member_texts(c@),
        );
    }
}

/// The lines of a parent session that a forked session may repeat, kept in the order of their keys.
#[derive(Debug)]
pub struct DuplicateLineFilter {
    remaining: Vec<Vec<JsonMember>>,
}

impl DuplicateLineFilter {
    #[verifier::type_invariant]
    spec fn inv(self) -> bool {
        ordering::in_rank_order(self.remaining@)
    }
}

spec fn keys_of(remaining: Seq<Vec<JsonMember>>) -> Seq<LineKey> {
    remaining.map_values(|members: Vec<JsonMember>| wire::member_texts(members@))
}

impl View for DuplicateLineFilter {
    type V = Multiset<LineKey>;

    closed spec fn view(&self) -> Multiset<LineKey> {
        keys_of(self.remaining@).to_multiset()
    }
}

fn copied_members(members: &Vec<JsonMember>) -> (copy: Vec<JsonMember>)
    ensures
        wire::member_texts(copy@) == wire::member_texts(members@),
{
    let mut copy: Vec<JsonMember> = Vec::new();
    let mut i: usize = 0;
    while i < members.len()
        invariant
            i <= members@.len(),
            copy@.len() == i,
            forall|j: int| 0 <= j < i ==> (#[trigger] copy@[j])@ == members@[j]@,
        decreases members@.len() - i,
    {
        copy.push(
            JsonMember { name: members[i].name.clone(), value: members[i].value.clone() },
        );
        i = i + 1;
    }
    proof {
        assert(wire::member_texts(copy@) =~= wire::member_texts(members@));
    }
    copy
}

impl Default for DuplicateLineFilter {
    fn default() -> (filter: DuplicateLineFilter)
        ensures
            filter@ == Multiset::<LineKey>::empty(),
    {
        broadcast use vstd::seq_lib::group_to_multiset_ensures;

        let filter = DuplicateLineFilter { remaining: Vec::new() };
        proof {
            assert(keys_of(filter.remaining@) =~= Seq::<LineKey>::empty());
            assert(filter@ =~= Multiset::empty());
        }
        filter
    }
}

impl Clone for DuplicateLineFilter {
    fn clone(&self) -> (copy: DuplicateLineFilter)
        ensures
            copy@ == self@,
    {
        proof {
            use_type_invariant(self);
        }
        let mut remaining: Vec<Vec<JsonMember>> = Vec::new();
        let mut i: usize = 0;
        while i < self.remaining.len()
            invariant
                i <= self.remaining@.len(),
                remaining@.len() == i,
                forall|j: int|
                    0 <= j < i ==> wire::member_texts((#[trigger] remaining@[j])@)
                        == wire::member_texts(self.remaining@[j]@),
            decreases self.remaining@.len() - i,
        {
            remaining.push(copied_members(&self.remaining[i]));
            i = i + 1;
        }
        proof {
            assert(keys_of(remaining@) =~= keys_of(self.remaining@));
            assert forall|a: int, b: int| 0 <= a < b < remaining@.len() implies (
            #[trigger] remaining@[a]).ranks_up_to(#[trigger] remaining@[b]) by {
                assert(self.remaining@[a].ranks_up_to(self.remaining@[b]));
            }
        }
        DuplicateLineFilter { remaining }
    }
}

/// Whether two lists of members are the same.
fn same_members(a: &Vec<JsonMember>, b: &Vec<JsonMember>) -> (same: bool)
    ensures
        same == (wire::member_texts(a@) == wire::member_texts(b@)),
{
    let ghost left = wire::member_texts(a@);
    let ghost right = wire::member_texts(b@);
    if a.len() != b.len() {
        proof {
            assert(left.len() != right.len());
        }
        return false;
    }
    let mut i: usize = 0;
    while i < a.len()
        invariant
            i <= a@.len() == b@.len(),
            left == wire::member_texts(a@),
            right == wire::member_texts(b@),
            forall|j: int| 0 <= j < i ==> left[j] == right[j],
        decreases a@.len() - i,
    {
        if !text::same_text(a[i].name.as_str(), b[i].name.as_str()) || !text::same_text(
            a[i].value.as_str(),
            b[i].value.as_str(),
        ) {
            proof {
                assert(left[i as int] != right[i as int]);
            }
            return false;
        }
        i = i + 1;
    }
    proof {
        assert(left =~= right);
    }
    true
}

/// Whether a line of a parent session counts tokens.
pub fn is_count(line: &LogLine) -> (counts: bool)
    ensures
        counts == makes_count(*line),
{
    let trimmed = wire::trim_ascii_whitespace(line.bytes.as_slice());
    if trimmed.len() == 0 || wire::line_kind_hint(trimmed) != LineKindHint::EventMsg
        || !wire::holds_text(trimmed, wire::TOKEN_COUNT_PATTERN) {
        return false;
    }
    match &line.envelope {
        Some(envelope) => match &envelope.payload {
            Some(LinePayload::Event(event)) => text::same_text(envelope.kind.as_str(), "event_msg")
                && text::same_text(event.kind.as_str(), "token_count"),
            _ => false,
        },
        None => false,
    }
}

/// Whether a line of a parent session counts tokens at or before the cutoff, where there is one.
fn is_counted(line: &LogLine, cutoff: Option<i64>) -> (counted: bool)
    ensures
        counted == (makes_count(*line) && in_time(
            wire::instant(line.envelope->0.timestamp),
            cutoff,
        )),
{
    if !is_count(line) {
        return false;
    }
    match &line.envelope {
        Some(envelope) => is_in_time(wire::optional_instant(&envelope.timestamp), cutoff),
        None => false,
    }
}

impl DuplicateLineFilter {
    /// Adds the key of a line of the parent session.
    pub fn remember(&mut self, key: Vec<JsonMember>)
        ensures
            final(self)@ == old(self)@.insert(wire::member_texts(key@)),
    {
        broadcast use vstd::seq_lib::group_to_multiset_ensures;

        proof {
            use_type_invariant(&*self);
        }
        let ghost before = self.remaining@;
        let ghost members = wire::member_texts(key@);
        let mut remaining: Vec<Vec<JsonMember>> = Vec::new();
        std::mem::swap(&mut remaining, &mut self.remaining);
        let at = ordering::place(&remaining, &key);
        let ghost line = key;
        remaining.insert(at, key);
        proof {
            assert forall|a: int, b: int| 0 <= a < b < remaining@.len() implies (
            #[trigger] remaining@[a]).ranks_up_to(#[trigger] remaining@[b]) by {
                if a < at {
                    Ranked::ranks_total(line, before[a]);
                }
            }
            assert(keys_of(remaining@) =~= keys_of(before).insert(at as int, members));
            vstd::seq_lib::to_multiset_insert(keys_of(before), at as int, members);
        }
        self.remaining = remaining;
    }

    /// The filter of the lines of a parent session that count tokens at or before the cutoff.
    pub fn from_file(lines: &[LogLine], before_or_at_unix_ms: Option<i64>) -> (filter:
        DuplicateLineFilter)
        ensures
            filter@ == counted_keys(lines@, before_or_at_unix_ms),
    {
        let mut filter = DuplicateLineFilter::default();
        let mut i: usize = 0;
        while i < lines.len()
            invariant
                i <= lines@.len(),
                filter@ == counted_keys(lines@.take(i as int), before_or_at_unix_ms),
            decreases lines@.len() - i,
        {
            proof {
                assert(lines@.take(i + 1).drop_last() =~= lines@.take(i as int));
            }
            if is_counted(&lines[i], before_or_at_unix_ms) {
                let trimmed = wire::trim_ascii_whitespace(lines[i].bytes.as_slice());
                if let Some(key) = wire::normalized_line_key(trimmed) {
                    filter.remember(key);
                }
            }
            i = i + 1;
        }
        proof {
            assert(lines@.take(lines@.len() as int) =~= lines@);
        }
        filter
    }

    /// Whether a line repeats one of the parent session's that was not repeated before; that one
    /// then counts as repeated.
    pub fn consume_if_duplicate(&mut self, trimmed: &[u8]) -> (duplicate: bool)
        ensures
            duplicate == (wire::line_key(trimmed@) matches Some(key) && old(self)@.contains(key)),
            duplicate ==> final(self)@ == old(self)@.remove(wire::line_key(trimmed@)->0),
            !duplicate ==> final(self)@ == old(self)@,
    {
        match wire::normalized_line_key(trimmed) {
            Some(key) => self.consume_key(&key),
            None => false,
        }
    }

    /// Whether the key of a line is one of the parent session's that was not repeated before; that
    /// one then counts as repeated.
    pub fn consume_key(&mut self, key: &Vec<JsonMember>) -> (duplicate: bool)
        ensures
            duplicate == old(self)@.contains(wire::member_texts(key@)),
            duplicate ==> final(self)@ == old(self)@.remove(wire::member_texts(key@)),
            !duplicate ==> final(self)@ == old(self)@,
    {
        broadcast use vstd::seq_lib::group_to_multiset_ensures;

        proof {
            use_type_invariant(&*self);
        }
        let ghost wanted = wire::member_texts(key@);
        let ghost before = self.remaining@;
        let ghost keys = keys_of(before);
        let at = ordering::place(&self.remaining, key);
        if at < self.remaining.len() && same_members(&self.remaining[at], key) {
            proof {
                assert(keys[at as int] == wanted);
                assert(keys.contains(wanted));
            }
            let mut remaining: Vec<Vec<JsonMember>> = Vec::new();
            std::mem::swap(&mut remaining, &mut self.remaining);
            remaining.remove(at);
            proof {
                assert(keys_of(remaining@) =~= keys.remove(at as int));
            }
            self.remaining = remaining;
            true
        } else {
            proof {
                assert forall|i: int| 0 <= i < keys.len() implies keys[i] != wanted by {
                    if keys[i] == wanted {
                        lemma_keys_total(wanted, wanted);
                        assert(key.ranks_up_to(before[i]));
                        assert(key.ranks_up_to(before[at as int]));
                        if at < i {
                            assert(before[at as int].ranks_up_to(before[i]));
                        }
                        lemma_one_key(wanted, keys[at as int]);
                    }
                }
                assert(!keys.contains(wanted));
            }
            false
        }
    }
}

/// How far the repeated start of a forked session has been read.
#[derive(Debug, Clone, Copy, PartialEq, Eq, Structural)]
pub struct InheritedPrefixState {
    pub first_session_meta_seen: bool,
    pub first_session_is_forked: bool,
    pub embedded_source_meta_seen: bool,
    pub skipping: bool,
    pub saw_prefix_token_count: bool,
    pub previous_timestamp_unix_ms: Option<i64>,
}

impl InheritedPrefixState {
    /// The state before the first line.
    pub open spec fn start() -> InheritedPrefixState {
        InheritedPrefixState {
            first_session_meta_seen: false,
            first_session_is_forked: false,
            embedded_source_meta_seen: false,
            skipping: false,
            saw_prefix_token_count: false,
            previous_timestamp_unix_ms: None,
        }
    }

    /// Only a forked session skips lines, and only once it has repeated its parent's description.
    pub open spec fn wf(self) -> bool {
        &&& self.skipping ==> self.embedded_source_meta_seen
        &&& self.embedded_source_meta_seen ==> self.first_session_is_forked
        &&& self.first_session_is_forked ==> self.first_session_meta_seen
        &&& self.saw_prefix_token_count ==> self.embedded_source_meta_seen
    }

    /// The state with the latest known instant.
    pub open spec fn at(self, unix_ms: Option<i64>) -> InheritedPrefixState {
        match unix_ms {
            Some(ms) => InheritedPrefixState { previous_timestamp_unix_ms: Some(ms), ..self },
            None => self,
        }
    }

    /// Whether a line at the instant comes after a pause that ends the repeated start.
    pub open spec fn ends_at(self, unix_ms: Option<i64>) -> bool {
        &&& self.skipping
        &&& self.saw_prefix_token_count
        &&& unix_ms matches Some(current)
        &&& self.previous_timestamp_unix_ms matches Some(previous)
        &&& current - previous > INHERITED_PREFIX_END_GAP_MS
    }

    /// Whether lines that count tokens at the instant belong to the repeated start.
    pub open spec fn skips_at(self, unix_ms: Option<i64>) -> bool {
        self.skipping && !self.ends_at(unix_ms)
    }

    /// Whether a description of a session is the parent's, repeated by the fork.
    pub open spec fn meta_is_embedded(self) -> bool {
        self.first_session_meta_seen && self.first_session_is_forked
            && !self.embedded_source_meta_seen
    }

    /// The state after a description of a session.
    pub open spec fn after_meta(
        self,
        meta: SessionMetaPayload,
        unix_ms: Option<i64>,
    ) -> InheritedPrefixState {
        let state = self.at(unix_ms);
        if !self.first_session_meta_seen {
            InheritedPrefixState {
                first_session_meta_seen: true,
                first_session_is_forked: wire::visible(meta.forked_from_id) is Some,
                ..state
            }
        } else if self.meta_is_embedded() {
            InheritedPrefixState { embedded_source_meta_seen: true, skipping: true, ..state }
        } else {
            state
        }
    }

    /// The state after a line that counts no tokens.
    pub open spec fn after_other(self, unix_ms: Option<i64>) -> InheritedPrefixState {
        InheritedPrefixState { skipping: self.skips_at(unix_ms), ..self.at(unix_ms) }
    }

    /// The state after a line that counts tokens.
    pub open spec fn after_count(self, unix_ms: Option<i64>) -> InheritedPrefixState {
        InheritedPrefixState {
            skipping: self.skips_at(unix_ms),
            saw_prefix_token_count: self.saw_prefix_token_count || self.skips_at(unix_ms),
            ..self.at(unix_ms)
        }
    }

    /// The state before the first line.
    pub fn new() -> (state: InheritedPrefixState)
        ensures
            state == InheritedPrefixState::start(),
    {
        InheritedPrefixState {
            first_session_meta_seen: false,
            first_session_is_forked: false,
            embedded_source_meta_seen: false,
            skipping: false,
            saw_prefix_token_count: false,
            previous_timestamp_unix_ms: None,
        }
    }

    /// Takes in a description of a session; tells whether it is the parent's.
    pub fn observe_session_meta(
        &mut self,
        meta: &SessionMetaPayload,
        timestamp_unix_ms: Option<i64>,
    ) -> (embedded: bool)
        ensures
            embedded == old(self).meta_is_embedded(),
            *final(self) == old(self).after_meta(*meta, timestamp_unix_ms),
    {
        self.observe_timestamp(timestamp_unix_ms);
        if !self.first_session_meta_seen {
            self.first_session_meta_seen = true;
            self.first_session_is_forked = match &meta.forked_from_id {
                Some(id) => !text::blank(id.as_str()),
                None => false,
            };
            return false;
        }
        if self.first_session_is_forked && !self.embedded_source_meta_seen {
            self.embedded_source_meta_seen = true;
            self.skipping = true;
            return true;
        }
        false
    }

    /// Takes in a line that counts no tokens.
    pub fn observe_non_token_line(&mut self, timestamp_unix_ms: Option<i64>)
        ensures
            *final(self) == old(self).after_other(timestamp_unix_ms),
    {
        self.end_prefix_if_live_gap(timestamp_unix_ms);
        self.observe_timestamp(timestamp_unix_ms);
    }

    /// Takes in a line that counts tokens; tells whether it belongs to the repeated start.
    pub fn observe_token_count(&mut self, timestamp_unix_ms: Option<i64>) -> (is_prefix: bool)
        ensures
            is_prefix == old(self).skips_at(timestamp_unix_ms),
            *final(self) == old(self).after_count(timestamp_unix_ms),
    {
        self.end_prefix_if_live_gap(timestamp_unix_ms);
        let is_prefix = self.skipping;
        if is_prefix {
            self.saw_prefix_token_count = true;
        }
        self.observe_timestamp(timestamp_unix_ms);
        is_prefix
    }

    fn end_prefix_if_live_gap(&mut self, timestamp_unix_ms: Option<i64>)
        ensures
            *final(self) == (InheritedPrefixState {
                skipping: old(self).skips_at(timestamp_unix_ms),
                ..*old(self)
            }),
    {
        if !self.skipping || !self.saw_prefix_token_count {
            return;
        }
        if let Some(current) = timestamp_unix_ms {
            if let Some(previous) = self.previous_timestamp_unix_ms {
                if current as i128 - previous as i128 > INHERITED_PREFIX_END_GAP_MS as i128 {
                    self.skipping = false;
                }
            }
        }
    }

    fn observe_timestamp(&mut self, timestamp_unix_ms: Option<i64>)
        ensures
            *final(self) == old(self).at(timestamp_unix_ms),
    {
        if let Some(timestamp) = timestamp_unix_ms {
            self.previous_timestamp_unix_ms = Some(timestamp);
        }
    }
}

} // verus!
