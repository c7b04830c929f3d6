//! Reports as they are handed to other programs.

use crate::report::laws;
use crate::report::sessions::SessionRow;
use crate::text_map;
use crate::text_map::TextMap;
use crate::types::{ModelTotals, ReportRow, Usage};
use vstd::prelude::*;

verus! {

/// Numbers of tokens as they are reported: the input without what was cached, and in full.
#[derive(Debug, Clone, Copy, PartialEq, Eq, Structural)]
pub struct UsagePayload {
    pub input_tokens: u64,
    pub cached_input_tokens: u64,
    pub raw_input_tokens: u64,
    pub output_tokens: u64,
    pub reasoning_output_tokens: u64,
    pub total_tokens: u64,
}

/// How usage is reported.
pub open spec fn usage_payload(usage: Usage) -> UsagePayload {
    UsagePayload {
        input_tokens: usage.billable_input() as u64,
        cached_input_tokens: usage.cached_input_tokens,
        raw_input_tokens: usage.input_tokens,
        output_tokens: usage.output_tokens,
        reasoning_output_tokens: usage.reasoning_output_tokens,
        total_tokens: usage.total_tokens,
    }
}

impl UsagePayload {
    /// How usage is reported.
    pub fn from(usage: &Usage) -> (payload: UsagePayload)
        ensures
            payload == usage_payload(*usage),
    {
        UsagePayload {
            input_tokens: usage.billable_input_tokens(),
            cached_input_tokens: usage.cached_input_tokens,
            raw_input_tokens: usage.input_tokens,
            output_tokens: usage.output_tokens,
            reasoning_output_tokens: usage.reasoning_output_tokens,
            total_tokens: usage.total_tokens,
        }
    }
}

/// What a model used, as it is reported.
#[derive(Debug, Clone, Copy, PartialEq, Eq, Structural)]
pub struct ModelTotalsPayload {
    pub usage: UsagePayload,
    pub is_fallback: bool,
}

/// How the totals of a model are reported.
pub open spec fn totals_payload(totals: ModelTotals) -> ModelTotalsPayload {
    ModelTotalsPayload { usage: usage_payload(totals.usage), is_fallback: totals.is_fallback }
}

/// How the totals of each model are reported.
pub open spec fn models_payload(models: Map<Seq<char>, ModelTotals>) -> Map<
    Seq<char>,
    ModelTotalsPayload,
> {
    models.map_values(|totals: ModelTotals| totals_payload(totals))
}

/// How the totals of each model are reported.
pub fn model_totals_payloads(models: &TextMap<ModelTotals>) -> (payloads: TextMap<
    ModelTotalsPayload,
>)
    ensures
        payloads@ == models_payload(models@),
{
    let n = models.len();
    let ghost entries = models.entries();
    let mut payloads: TextMap<ModelTotalsPayload> = TextMap::new();
    let mut i: usize = 0;
    while i < n
        invariant
            i <= n == entries.len(),
            entries == models.entries(),
            text_map::ordered(entries),
            forall|model: Seq<char>| #[trigger]
                payloads@.dom().contains(model) <==> text_map::has_key(
                    entries.take(i as int),
                    model,
                ),
            forall|model: Seq<char>| #[trigger]
                payloads@.dom().contains(model) ==> payloads@[model] == totals_payload(
                    models@[model],
                ),
        decreases n - i,
    {
        let totals = models.value_at(i);
        let payload = ModelTotalsPayload {
            usage: UsagePayload::from(&totals.usage),
            is_fallback: totals.is_fallback,
        };
        let model = models.key_at(i).clone();
        proof {
            text_map::lemma_entry_in_map(entries, i as int);
            assert forall|key: Seq<char>| #[trigger]
                text_map::has_key(entries.take(i + 1), key) <==> text_map::has_key(
                    entries.take(i as int),
                    key,
                ) || key == model@ by {
                if text_map::has_key(entries.take(i as int), key) {
                    let j = choose|j: int|
                        0 <= j < i && (#[trigger] entries.take(i as int)[j]).0 == key;
                    assert(entries.take(i + 1)[j].0 == key);
                }
                if key == model@ {
                    assert(entries.take(i + 1)[i as int].0 == key);
                }
                if text_map::has_key(entries.take(i + 1), key) {
                    let j = choose|j: int|
                        0 <= j < i + 1 && (#[trigger] entries.take(i + 1)[j]).0 == key;
                    if j < i {
                        assert(entries.take(i as int)[j].0 == key);
                    }
                }
            }
        }
        payloads.insert(model, payload);
        i = i + 1;
    }
    proof {
        assert(entries.take(i as int) =~= entries);
        assert(payloads@ =~= models_payload(models@));
    }
    payloads
}

/// A row of a report by period, as it is reported.
pub struct ReportRowPayload {
    pub key: String,
    pub usage: UsagePayload,
    pub models: TextMap<ModelTotalsPayload>,
}

/// Whether this is how a row is reported.
pub open spec fn reports_row(payload: ReportRowPayload, row: ReportRow) -> bool {
    &&& payload.key@ == row.key@
    &&& payload.usage == usage_payload(row.usage)
    &&& payload.models@ == models_payload(row.models@)
}

/// How rows by period are reported.
pub fn report_row_payloads(rows: &[ReportRow]) -> (payloads: Vec<ReportRowPayload>)
    ensures
        payloads@.len() == rows@.len(),
        forall|i: int| 0 <= i < rows@.len() ==> reports_row(#[trigger] payloads@[i], rows@[i]),
{
    let mut payloads: Vec<ReportRowPayload> = Vec::new();
    let mut i: usize = 0;
    while i < rows.len()
        invariant
            i <= rows@.len(),
            payloads@.len() == i,
            forall|j: int| 0 <= j < i ==> reports_row(#[trigger] payloads@[j], rows@[j]),
        decreases rows@.len() - i,
    {
        payloads.push(
            ReportRowPayload {
                key: rows[i].key.clone(),
                usage: UsagePayload::from(&rows[i].usage),
                models: model_totals_payloads(&rows[i].models),
            },
        );
        i = i + 1;
    }
    payloads
}

/// A row of a report by session, as it is reported.
pub struct SessionRowPayload {
    pub date_key: String,
    pub session_id: String,
    pub session_file: String,
    pub directory: String,
    pub last_activity_unix_ms: i64,
    pub usage: UsagePayload,
    pub models: TextMap<ModelTotalsPayload>,
}

/// Whether this is how a session's row is reported.
pub open spec fn reports_session(payload: SessionRowPayload, row: SessionRow) -> bool {
    &&& payload.date_key@ == row.date_key@
    &&& payload.session_id@ == row.session_id@
    &&& payload.session_file@ == row.session_file@
    &&& payload.directory@ == row.directory@
    &&& payload.last_activity_unix_ms == row.last_activity_unix_ms
    &&& payload.usage == usage_payload(row.usage)
    &&& payload.models@ == models_payload(row.models@)
}

/// How rows by session are reported.
pub fn session_row_payloads(rows: &[SessionRow]) -> (payloads: Vec<SessionRowPayload>)
    ensures
        payloads@.len() == rows@.len(),
        forall|i: int| 0 <= i < rows@.len() ==> reports_session(#[trigger] payloads@[i], rows@[i]),
{
    let mut payloads: Vec<SessionRowPayload> = Vec::new();
    let mut i: usize = 0;
    while i < rows.len()
        invariant
            i <= rows@.len(),
            payloads@.len() == i,
            forall|j: int| 0 <= j < i ==> reports_session(#[trigger] payloads@[j], rows@[j]),
        decreases rows@.len() - i,
    {
        let row = &rows[i];
        payloads.push(
            SessionRowPayload {
                date_key: row.date_key.clone(),
                session_id: row.session_id.clone(),
                session_file: row.session_file.clone(),
                directory: row.directory.clone(),
                last_activity_unix_ms: row.last_activity_unix_ms,
                usage: UsagePayload::from(&row.usage),
                models: model_totals_payloads(&row.models),
            },
        );
        i = i + 1;
    }
    payloads
}

/// Reported numbers of tokens, without a limit on their size.
pub struct PayloadCounts {
    pub input: nat,
    pub cached_input: nat,
    pub raw_input: nat,
    pub output: nat,
    pub reasoning_output: nat,
    pub total: nat,
}

impl PayloadCounts {
    /// No tokens.
    pub open spec fn zero() -> PayloadCounts {
        PayloadCounts {
            input: 0,
            cached_input: 0,
            raw_input: 0,
            output: 0,
            reasoning_output: 0,
            total: 0,
        }
    }

    /// The counts with those of a usage added.
    pub open spec fn with(self, usage: Usage) -> PayloadCounts {
        PayloadCounts {
            input: self.input + usage.billable_input(),
            cached_input: self.cached_input + usage.cached_input_tokens as nat,
            raw_input: self.raw_input + usage.input_tokens as nat,
            output: self.output + usage.output_tokens as nat,
            reasoning_output: self.reasoning_output + usage.reasoning_output_tokens as nat,
            total: self.total + usage.total_tokens as nat,
        }
    }

    /// Whether each count is a number of 64 bits.
    pub open spec fn fits(self) -> bool {
        &&& self.input <= u64::MAX
        &&& self.cached_input <= u64::MAX
        &&& self.raw_input <= u64::MAX
        &&& self.output <= u64::MAX
        &&& self.reasoning_output <= u64::MAX
        &&& self.total <= u64::MAX
    }
}

/// The sum of all usages, as it is reported.
pub open spec fn total_of(usages: Seq<Usage>) -> PayloadCounts
    decreases usages.len(),
{
    if usages.len() == 0 {
        PayloadCounts::zero()
    } else {
        total_of(usages.drop_last()).with(usages.last())
    }
}

/// The sum of all rows of a report, as it is reported.
#[derive(Debug, Clone, Copy, PartialEq, Eq, Structural)]
pub struct TotalsPayload {
    pub input_tokens: u64,
    pub cached_input_tokens: u64,
    pub raw_input_tokens: u64,
    pub output_tokens: u64,
    pub reasoning_output_tokens: u64,
    pub total_tokens: u64,
}

impl View for TotalsPayload {
    type V = PayloadCounts;

    open spec fn view(&self) -> PayloadCounts {
        PayloadCounts {
            input: self.input_tokens as nat,
            cached_input: self.cached_input_tokens as nat,
            raw_input: self.raw_input_tokens as nat,
            output: self.output_tokens as nat,
            reasoning_output: self.reasoning_output_tokens as nat,
            total: self.total_tokens as nat,
        }
    }
}

impl Default for TotalsPayload {
    fn default() -> (totals: TotalsPayload)
        ensures
            totals@ == PayloadCounts::zero(),
    {
        TotalsPayload {
            input_tokens: 0,
            cached_input_tokens: 0,
            raw_input_tokens: 0,
            output_tokens: 0,
            reasoning_output_tokens: 0,
            total_tokens: 0,
        }
    }
}

impl TotalsPayload {
    /// Adds a usage.
    pub fn add_usage(&mut self, usage: &Usage)
        requires
            old(self)@.with(*usage).fits(),
        ensures
            final(self)@ == old(self)@.with(*usage),
    {
        self.input_tokens = self.input_tokens + usage.billable_input_tokens();
        self.cached_input_tokens = self.cached_input_tokens + usage.cached_input_tokens;
        self.raw_input_tokens = self.raw_input_tokens + usage.input_tokens;
        self.output_tokens = self.output_tokens + usage.output_tokens;
        self.reasoning_output_tokens = self.reasoning_output_tokens + usage.reasoning_output_tokens;
        self.total_tokens = self.total_tokens + usage.total_tokens;
    }

    /// Whether the sums with a usage stay within 64 bits.
    pub fn can_add(&self, usage: &Usage) -> (fits: bool)
        ensures
            fits == self@.with(*usage).fits(),
    {
        self.input_tokens <= u64::MAX - usage.billable_input_tokens() && self.cached_input_tokens
            <= u64::MAX - usage.cached_input_tokens && self.raw_input_tokens <= u64::MAX
            - usage.input_tokens && self.output_tokens <= u64::MAX - usage.output_tokens
            && self.reasoning_output_tokens <= u64::MAX - usage.reasoning_output_tokens
            && self.total_tokens <= u64::MAX - usage.total_tokens
    }
}

proof fn lemma_total_grows(usages: Seq<Usage>, n: int)
    requires
        0 <= n <= usages.len(),
        total_of(usages).fits(),
    ensures
        total_of(usages.take(n)).fits(),
    decreases usages.len() - n,
{
    if n < usages.len() {
        lemma_total_grows(usages, n + 1);
        assert(usages.take(n + 1).drop_last() =~= usages.take(n));
    } else {
        assert(usages.take(n) =~= usages);
    }
}

/// The usages of rows by period.
pub open spec fn report_usages(rows: Seq<ReportRow>) -> Seq<Usage> {
    rows.map_values(|row: ReportRow| row.usage)
}

/// The usages of rows by session.
pub open spec fn session_usages(rows: Seq<SessionRow>) -> Seq<Usage> {
    rows.map_values(|row: SessionRow| row.usage)
}

/// The usages of rows by period, in their order.
fn usages_of_report(rows: &[ReportRow]) -> (usages: Vec<Usage>)
    ensures
        usages@ == report_usages(rows@),
{
    let mut usages: Vec<Usage> = Vec::new();
    let mut i: usize = 0;
    while i < rows.len()
        invariant
            i <= rows@.len(),
            usages@.len() == i,
            forall|j: int| 0 <= j < i ==> #[trigger] usages@[j] == rows@[j].usage,
        decreases rows@.len() - i,
    {
        usages.push(rows[i].usage);
        i = i + 1;
    }
    proof {
        assert(usages@ =~= report_usages(rows@));
    }
    usages
}

/// The usages of rows by session, in their order.
fn usages_of_sessions(rows: &[SessionRow]) -> (usages: Vec<Usage>)
    ensures
        usages@ == session_usages(rows@),
{
    let mut usages: Vec<Usage> = Vec::new();
    let mut i: usize = 0;
    while i < rows.len()
        invariant
            i <= rows@.len(),
            usages@.len() == i,
            forall|j: int| 0 <= j < i ==> #[trigger] usages@[j] == rows@[j].usage,
        decreases rows@.len() - i,
    {
        usages.push(rows[i].usage);
        i = i + 1;
    }
    proof {
        assert(usages@ =~= session_usages(rows@));
    }
    usages
}

/// The sum of usages, where it is within 64 bits.
fn try_total(usages: &[Usage]) -> (totals: Option<TotalsPayload>)
    ensures
        totals is Some <==> total_of(usages@).fits(),
        totals matches Some(totals) ==> totals@ == total_of(usages@),
{
    let mut totals = TotalsPayload::default();
    let mut i: usize = 0;
    while i < usages.len()
        invariant
            i <= usages@.len(),
            totals@ == total_of(usages@.take(i as int)),
        decreases usages@.len() - i,
    {
        proof {
            assert(usages@.take(i + 1).drop_last() =~= usages@.take(i as int));
            if total_of(usages@).fits() {
                lemma_total_grows(usages@, i + 1);
            }
        }
        if !totals.can_add(&usages[i]) {
            return None;
        }
        totals.add_usage(&usages[i]);
        i = i + 1;
    }
    proof {
        assert(usages@.take(i as int) =~= usages@);
    }
    Some(totals)
}

/// The sum of rows by period, where it is within 64 bits.
pub fn try_totals_from_report_rows(rows: &[ReportRow]) -> (totals: Option<TotalsPayload>)
    ensures
        totals is Some <==> total_of(report_usages(rows@)).fits(),
        totals matches Some(totals) ==> totals@ == total_of(report_usages(rows@)),
{
    try_total(usages_of_report(rows).as_slice())
}

/// The sum of rows by period.
pub fn totals_from_report_rows(rows: &[ReportRow]) -> (totals: TotalsPayload)
    requires
        total_of(report_usages(rows@)).fits(),
    ensures
        totals@ == total_of(report_usages(rows@)),
{
    try_totals_from_report_rows(rows).unwrap()
}

/// The sum of rows by session, where it is within 64 bits.
pub fn try_totals_from_session_rows(rows: &[SessionRow]) -> (totals: Option<TotalsPayload>)
    ensures
        totals is Some <==> total_of(session_usages(rows@)).fits(),
        totals matches Some(totals) ==> totals@ == total_of(session_usages(rows@)),
{
    try_total(usages_of_sessions(rows).as_slice())
}

/// The sum of rows by session.
pub fn totals_from_session_rows(rows: &[SessionRow]) -> (totals: TotalsPayload)
    requires
        total_of(session_usages(rows@)).fits(),
    ensures
        totals@ == total_of(session_usages(rows@)),
{
    try_totals_from_session_rows(rows).unwrap()
}

/// The sum of the rows of a report by period tells of the same tokens as the rows do.
pub proof fn lemma_totals_are_sums(rows: Seq<ReportRow>)
    ensures
        total_of(report_usages(rows)).raw_input == laws::usage_of_rows(rows).input,
        total_of(report_usages(rows)).cached_input == laws::usage_of_rows(rows).cached_input,
        total_of(report_usages(rows)).output == laws::usage_of_rows(rows).output,
        total_of(report_usages(rows)).reasoning_output == laws::usage_of_rows(
            rows,
        ).reasoning_output,
        total_of(report_usages(rows)).total == laws::usage_of_rows(rows).total,
    decreases rows.len(),
{
    if rows.len() > 0 {
        lemma_totals_are_sums(rows.drop_last());
        assert(report_usages(rows).drop_last() =~= report_usages(rows.drop_last()));
    }
}

/// Where no usage has more cached input than input, the reported input and the cached input add up
/// to the full input.
pub proof fn lemma_input_is_parted(usages: Seq<Usage>)
    requires
        forall|i: int|
            0 <= i < usages.len() ==> (#[trigger] usages[i]).cached_input_tokens
                <= usages[i].input_tokens,
    ensures
        total_of(usages).input + total_of(usages).cached_input == total_of(usages).raw_input,
    decreases usages.len(),
{
    if usages.len() > 0 {
        let fewer = usages.drop_last();
        assert forall|i: int| 0 <= i < fewer.len() implies (#[trigger] fewer[i]).cached_input_tokens
            <= fewer[i].input_tokens by {
            assert(fewer[i] == usages[i]);
        }
        lemma_input_is_parted(fewer);
        assert(usages[usages.len() - 1].cached_input_tokens <= usages[usages.len()
            - 1].input_tokens);
    }
}

} // verus!
