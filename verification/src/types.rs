//! Token usage, the sessions that it was read from, and the rows that it is reported in.

use crate::text_map::TextMap;
use vstd::prelude::*;

verus! {

/// Numbers of tokens, without a limit on their size.
pub struct TokenCounts {
    pub input: nat,
    pub cached_input: nat,
    pub output: nat,
    pub reasoning_output: nat,
    pub total: nat,
}

impl TokenCounts {
    /// No tokens.
    pub open spec fn zero() -> TokenCounts {
        TokenCounts { input: 0, cached_input: 0, output: 0, reasoning_output: 0, total: 0 }
    }

    /// The sum, count by count.
    pub open spec fn plus(self, other: TokenCounts) -> TokenCounts {
        TokenCounts {
            input: self.input + other.input,
            cached_input: self.cached_input + other.cached_input,
            output: self.output + other.output,
            reasoning_output: self.reasoning_output + other.reasoning_output,
            total: self.total + other.total,
        }
    }

    /// Whether no count is larger than in `other`.
    pub open spec fn within(self, other: TokenCounts) -> bool {
        &&& self.input <= other.input
        &&& self.cached_input <= other.cached_input
        &&& self.output <= other.output
        &&& self.reasoning_output <= other.reasoning_output
        &&& self.total <= other.total
    }

    /// Whether each count is a number of 64 bits.
    pub open spec fn fits(self) -> bool {
        &&& self.input <= u64::MAX
        &&& self.cached_input <= u64::MAX
        &&& self.output <= u64::MAX
        &&& self.reasoning_output <= u64::MAX
        &&& self.total <= u64::MAX
    }
}

/// Numbers of tokens used.
#[derive(Debug, Clone, Copy, PartialEq, Eq, Structural)]
pub struct Usage {
    pub input_tokens: u64,
    pub cached_input_tokens: u64,
    pub output_tokens: u64,
    pub reasoning_output_tokens: u64,
    pub total_tokens: u64,
}

impl View for Usage {
    type V = TokenCounts;

    open spec fn view(&self) -> TokenCounts {
        TokenCounts {
            input: self.input_tokens as nat,
            cached_input: self.cached_input_tokens as nat,
            output: self.output_tokens as nat,
            reasoning_output: self.reasoning_output_tokens as nat,
            total: self.total_tokens as nat,
        }
    }
}

impl Default for Usage {
    fn default() -> (usage: Usage)
        ensures
            usage@ == TokenCounts::zero(),
    {
        Usage {
            input_tokens: 0,
            cached_input_tokens: 0,
            output_tokens: 0,
            reasoning_output_tokens: 0,
            total_tokens: 0,
        }
    }
}

impl Usage {
    /// The usage of no tokens.
    pub open spec fn none() -> Usage {
        Usage {
            input_tokens: 0,
            cached_input_tokens: 0,
            output_tokens: 0,
            reasoning_output_tokens: 0,
            total_tokens: 0,
        }
    }

    /// The input that was not read from a cache; none where more was cached than put in.
    pub open spec fn billable_input(self) -> nat {
        if self.cached_input_tokens <= self.input_tokens {
            (self.input_tokens - self.cached_input_tokens) as nat
        } else {
            0
        }
    }

    /// Adds the counts of `other` to these.
    pub fn add_assign(&mut self, other: &Usage)
        requires
            old(self)@.plus(other@).fits(),
        ensures
            final(self)@ == old(self)@.plus(other@),
    {
        self.input_tokens = self.input_tokens + other.input_tokens;
        self.cached_input_tokens = self.cached_input_tokens + other.cached_input_tokens;
        self.output_tokens = self.output_tokens + other.output_tokens;
        self.reasoning_output_tokens = self.reasoning_output_tokens + other.reasoning_output_tokens;
        self.total_tokens = self.total_tokens + other.total_tokens;
    }

    /// Whether the sum with `other` stays within 64 bits.
    pub fn can_add(&self, other: &Usage) -> (fits: bool)
        ensures
            fits == self@.plus(other@).fits(),
    {
        self.input_tokens <= u64::MAX - other.input_tokens && self.cached_input_tokens <= u64::MAX
            - other.cached_input_tokens && self.output_tokens <= u64::MAX - other.output_tokens
            && self.reasoning_output_tokens <= u64::MAX - other.reasoning_output_tokens
            && self.total_tokens <= u64::MAX - other.total_tokens
    }

    /// The input tokens that were not read from a cache.
    pub fn billable_input_tokens(&self) -> (tokens: u64)
        ensures
            tokens == self.billable_input(),
    {
        let cached: u64 = if self.cached_input_tokens <= self.input_tokens {
            self.cached_input_tokens
        } else {
            self.input_tokens
        };
        self.input_tokens - cached
    }

    /// Whether every count is zero.
    pub fn is_none(&self) -> (none: bool)
        ensures
            none == (*self == Usage::none()),
    {
        self.total_tokens == 0 && self.input_tokens == 0 && self.cached_input_tokens == 0
            && self.output_tokens == 0 && self.reasoning_output_tokens == 0
    }
}

/// The text of an optional string.
pub open spec fn optional_text(value: Option<String>) -> Option<Seq<char>> {
    match value {
        Some(value) => Some(value@),
        None => None,
    }
}

/// One use of tokens, at an instant, by a model.
pub struct EventModel {
    pub timestamp_unix_ms: i64,
    pub model: Seq<char>,
    pub is_fallback_model: bool,
    pub usage: Usage,
}

/// One use of tokens, at an instant, by a model.
#[derive(Debug, Clone, PartialEq, Eq)]
pub struct UsageEvent {
    pub timestamp_unix_ms: i64,
    pub model: String,
    pub is_fallback_model: bool,
    pub usage: Usage,
}

impl View for UsageEvent {
    type V = EventModel;

    open spec fn view(&self) -> EventModel {
        EventModel {
            timestamp_unix_ms: self.timestamp_unix_ms,
            model: self.model@,
            is_fallback_model: self.is_fallback_model,
            usage: self.usage,
        }
    }
}

/// The events of a list.
pub open spec fn event_models(events: Seq<UsageEvent>) -> Seq<EventModel> {
    events.map_values(|event: UsageEvent| event@)
}

/// A session: where its log stands, where it worked, and what it used.
pub struct SessionModel {
    pub session_id: Seq<char>,
    pub session_path: Seq<char>,
    pub directory: Option<Seq<char>>,
    pub events: Seq<EventModel>,
}

/// A session: where its log stands, where it worked, and what it used.
#[derive(Debug, Clone, PartialEq, Eq)]
pub struct SessionSummary {
    pub session_id: String,
    pub session_path: String,
    pub directory: Option<String>,
    pub events: Vec<UsageEvent>,
}

impl View for SessionSummary {
    type V = SessionModel;

    open spec fn view(&self) -> SessionModel {
        SessionModel {
            session_id: self.session_id@,
            session_path: self.session_path@,
            directory: optional_text(self.directory),
            events: event_models(self.events@),
        }
    }
}

/// A session as it was when its log had the given size and time of change.
#[derive(Debug, Clone, PartialEq, Eq)]
pub struct CachedSessionSummary {
    pub file_size: u64,
    pub modified_unix_ms: i64,
    pub session: SessionSummary,
}

/// A session as it was when its log had the given size and time of change.
pub struct EntryModel {
    pub file_size: u64,
    pub modified_unix_ms: i64,
    pub session: SessionModel,
}

impl View for CachedSessionSummary {
    type V = EntryModel;

    open spec fn view(&self) -> EntryModel {
        EntryModel {
            file_size: self.file_size,
            modified_unix_ms: self.modified_unix_ms,
            session: self.session@,
        }
    }
}

/// The entries of a list.
pub open spec fn entry_models(entries: Seq<CachedSessionSummary>) -> Seq<EntryModel> {
    entries.map_values(|entry: CachedSessionSummary| entry@)
}

/// A session log as a manifest lists it.
#[derive(Debug, Clone, PartialEq, Eq)]
pub struct CachedManifestFile {
    pub relative_path: String,
    pub file_size: u64,
    pub modified_unix_ms: i64,
}

/// A directory of session logs as a manifest lists it.
#[derive(Debug, Clone, PartialEq, Eq)]
pub struct CachedManifestDirectory {
    pub relative_dir: String,
    pub modified_unix_ms: i64,
    pub files: Vec<CachedManifestFile>,
}

/// A session log as a manifest lists it.
pub struct ManifestFileModel {
    pub relative_path: Seq<char>,
    pub file_size: u64,
    pub modified_unix_ms: i64,
}

impl View for CachedManifestFile {
    type V = ManifestFileModel;

    open spec fn view(&self) -> ManifestFileModel {
        ManifestFileModel {
            relative_path: self.relative_path@,
            file_size: self.file_size,
            modified_unix_ms: self.modified_unix_ms,
        }
    }
}

/// A directory of session logs as a manifest lists it.
pub struct DirectoryModel {
    pub relative_dir: Seq<char>,
    pub modified_unix_ms: i64,
    pub files: Seq<ManifestFileModel>,
}

impl View for CachedManifestDirectory {
    type V = DirectoryModel;

    open spec fn view(&self) -> DirectoryModel {
        DirectoryModel {
            relative_dir: self.relative_dir@,
            modified_unix_ms: self.modified_unix_ms,
            files: self.files@.map_values(|file: CachedManifestFile| file@),
        }
    }
}

/// The directories of a list.
pub open spec fn directory_models(directories: Seq<CachedManifestDirectory>) -> Seq<
    DirectoryModel,
> {
    directories.map_values(|directory: CachedManifestDirectory| directory@)
}

/// What a model used, without a limit on the counts.
pub struct TotalsModel {
    pub usage: TokenCounts,
    pub is_fallback: bool,
}

/// What a model used, and whether the model was assumed for any of it.
#[derive(Debug, Clone, Copy, PartialEq, Eq, Structural)]
pub struct ModelTotals {
    pub usage: Usage,
    pub is_fallback: bool,
}

impl View for ModelTotals {
    type V = TotalsModel;

    open spec fn view(&self) -> TotalsModel {
        TotalsModel { usage: self.usage@, is_fallback: self.is_fallback }
    }
}

impl Default for ModelTotals {
    fn default() -> (totals: ModelTotals)
        ensures
            totals@ == (TotalsModel { usage: TokenCounts::zero(), is_fallback: false }),
    {
        ModelTotals { usage: Usage::default(), is_fallback: false }
    }
}

/// The totals of each model.
pub open spec fn totals_by_model(models: Map<Seq<char>, ModelTotals>) -> Map<
    Seq<char>,
    TotalsModel,
> {
    models.map_values(|totals: ModelTotals| totals@)
}

/// What was used in a period, in all and by model.
pub struct RowModel {
    pub key: Seq<char>,
    pub usage: TokenCounts,
    pub models: Map<Seq<char>, TotalsModel>,
}

/// What was used in a period, in all and by model.
#[derive(Debug, Clone, PartialEq, Eq)]
pub struct ReportRow {
    pub key: String,
    pub usage: Usage,
    pub models: TextMap<ModelTotals>,
}

impl View for ReportRow {
    type V = RowModel;

    open spec fn view(&self) -> RowModel {
        RowModel { key: self.key@, usage: self.usage@, models: totals_by_model(self.models@) }
    }
}

} // verus!
