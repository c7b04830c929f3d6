//! How numbers of tokens add up.

use crate::types::{ModelTotals, Usage};
use vstd::prelude::*;

verus! {

/// Each count grows by its own.
pub proof fn lemma_each_count_is_added(usage: &mut Usage, other: &Usage)
    requires
        call_ensures(Usage::add_assign, (usage, other), ()),
    ensures
        final(usage).input_tokens == old(usage).input_tokens + other.input_tokens,
        final(usage).cached_input_tokens == old(usage).cached_input_tokens
            + other.cached_input_tokens,
        final(usage).output_tokens == old(usage).output_tokens + other.output_tokens,
        final(usage).reasoning_output_tokens == old(usage).reasoning_output_tokens
            + other.reasoning_output_tokens,
        final(usage).total_tokens == old(usage).total_tokens + other.total_tokens,
{
}

/// A usage can be added exactly where every sum is a number of 64 bits.
pub proof fn lemma_every_sum_has_to_fit(usage: &Usage, other: &Usage, fits: bool)
    requires
        call_ensures(Usage::can_add, (usage, other), fits),
    ensures
        fits <==> usage.input_tokens + other.input_tokens <= u64::MAX && usage.cached_input_tokens
            + other.cached_input_tokens <= u64::MAX && usage.output_tokens + other.output_tokens
            <= u64::MAX && usage.reasoning_output_tokens + other.reasoning_output_tokens
            <= u64::MAX && usage.total_tokens + other.total_tokens <= u64::MAX,
{
}

/// Input is billed as far as it was not cached.
pub proof fn lemma_cached_input_is_not_billed(usage: &Usage, tokens: u64)
    requires
        call_ensures(Usage::billable_input_tokens, (usage,), tokens),
    ensures
        usage.cached_input_tokens <= usage.input_tokens ==> tokens + usage.cached_input_tokens
            == usage.input_tokens,
        usage.cached_input_tokens > usage.input_tokens ==> tokens == 0,
{
}

/// Nothing was used exactly where every count is zero.
pub proof fn lemma_nothing_was_used(usage: &Usage, none: bool)
    requires
        call_ensures(Usage::is_none, (usage,), none),
    ensures
        none <==> usage.input_tokens == 0 && usage.cached_input_tokens == 0 && usage.output_tokens
            == 0 && usage.reasoning_output_tokens == 0 && usage.total_tokens == 0,
{
}

/// Sums start from nothing, of a model that was not assumed.
pub proof fn lemma_sums_start_from_nothing(usage: Usage, totals: ModelTotals)
    requires
        call_ensures(Usage::default, (), usage),
        call_ensures(ModelTotals::default, (), totals),
    ensures
        usage.input_tokens == 0,
        usage.cached_input_tokens == 0,
        usage.output_tokens == 0,
        usage.reasoning_output_tokens == 0,
        usage.total_tokens == 0,
        totals.usage == usage,
        !totals.is_fallback,
{
}

} // verus!
