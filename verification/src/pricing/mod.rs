//! What tokens cost.

pub mod catalog;
pub mod laws;

pub use self::catalog::{CachedPricingCatalog, LiteLLMModelPricing, PricingCatalog};
use crate::text;
use crate::text_map;
use crate::text_map::TextMap;
use crate::types::Usage;
use vstd::prelude::*;

verus! {

/// A price in dollars.
#[derive(Debug, Clone, Copy, PartialEq, Eq, Structural)]
pub enum Price {
    /// So many millionths of a dollar for a million tokens.
    MicroDollars(u64),
    /// The price of one token: the bits of a binary fraction of 64 bits.
    PerToken(u64),
}

/// What a million tokens of a model cost.
#[derive(Debug, Clone, Copy, PartialEq, Eq, Structural)]
pub struct ModelPricing {
    pub input_cost_per_million: Price,
    pub cached_input_cost_per_million: Price,
    pub output_cost_per_million: Price,
}

/// Prices in millionths of a dollar.
pub open spec fn micro_dollars(input: u64, cached_input: u64, output: u64) -> ModelPricing {
    ModelPricing {
        input_cost_per_million: Price::MicroDollars(input),
        cached_input_cost_per_million: Price::MicroDollars(cached_input),
        output_cost_per_million: Price::MicroDollars(output),
    }
}

fn prices(input: u64, cached_input: u64, output: u64) -> (pricing: ModelPricing)
    ensures
        pricing == micro_dollars(input, cached_input, output),
{
    ModelPricing {
        input_cost_per_million: Price::MicroDollars(input),
        cached_input_cost_per_million: Price::MicroDollars(cached_input),
        output_cost_per_million: Price::MicroDollars(output),
    }
}

/// What a model costs whatever the catalog says.
pub open spec fn pinned_pricing(model: Seq<char>) -> Option<ModelPricing> {
    if model == "gpt-5.3-codex-spark"@ {
        Some(micro_dollars(0, 0, 0))
    } else {
        None
    }
}

/// What a model costs whatever the catalog says.
pub fn pinned_model_pricing(model: &str) -> (pricing: Option<ModelPricing>)
    ensures
        pricing == pinned_pricing(model@),
{
    if text::same_text(model, "gpt-5.3-codex-spark") {
        Some(prices(0, 0, 0))
    } else {
        None
    }
}

/// What a model costs that the catalog does not price; one that is not known costs nothing.
pub open spec fn fallback_pricing(model: Seq<char>) -> ModelPricing {
    if model == "gpt-5.6-luna"@ {
        micro_dollars(1_000_000, 100_000, 6_000_000)
    } else if model == "gpt-5.6-terra"@ {
        micro_dollars(2_500_000, 250_000, 15_000_000)
    } else if model == "gpt-5.6-sol"@ {
        micro_dollars(5_000_000, 500_000, 30_000_000)
    } else if model == "gpt-5.5"@ {
        micro_dollars(5_000_000, 500_000, 30_000_000)
    } else if model == "gpt-5.4-mini"@ {
        micro_dollars(750_000, 75_000, 4_500_000)
    } else if model == "gpt-5.4"@ || model == "gpt-5.4-codex"@ {
        micro_dollars(2_500_000, 250_000, 15_000_000)
    } else if model == "gpt-5.2-codex"@ || model == "gpt-5.3-codex"@ {
        micro_dollars(1_750_000, 175_000, 14_000_000)
    } else if model == "gpt-5"@ || model == "gpt-5-codex"@ {
        micro_dollars(1_250_000, 125_000, 10_000_000)
    } else {
        micro_dollars(0, 0, 0)
    }
}

/// What a model costs that the catalog does not price.
pub fn fallback_model_pricing(model: &str) -> (pricing: ModelPricing)
    ensures
        pricing == fallback_pricing(model@),
{
    if text::same_text(model, "gpt-5.6-luna") {
        prices(1_000_000, 100_000, 6_000_000)
    } else if text::same_text(model, "gpt-5.6-terra") {
        prices(2_500_000, 250_000, 15_000_000)
    } else if text::same_text(model, "gpt-5.6-sol") {
        prices(5_000_000, 500_000, 30_000_000)
    } else if text::same_text(model, "gpt-5.5") {
        prices(5_000_000, 500_000, 30_000_000)
    } else if text::same_text(model, "gpt-5.4-mini") {
        prices(750_000, 75_000, 4_500_000)
    } else if text::same_text(model, "gpt-5.4") || text::same_text(model, "gpt-5.4-codex") {
        prices(2_500_000, 250_000, 15_000_000)
    } else if text::same_text(model, "gpt-5.2-codex") || text::same_text(model, "gpt-5.3-codex") {
        prices(1_750_000, 175_000, 14_000_000)
    } else if text::same_text(model, "gpt-5") || text::same_text(model, "gpt-5-codex") {
        prices(1_250_000, 125_000, 10_000_000)
    } else {
        prices(0, 0, 0)
    }
}

/// The model whose prices hold for another.
pub open spec fn alias_of(model: Seq<char>) -> Option<Seq<char>> {
    if model == "gpt-5-codex"@ {
        Some("gpt-5"@)
    } else if model == "gpt-5.3-codex"@ {
        Some("gpt-5.2-codex"@)
    } else {
        None
    }
}

/// The model whose prices hold for another.
pub fn model_alias(model: &str) -> (alias: Option<&'static str>)
    ensures
        alias is Some <==> alias_of(model@) is Some,
        alias matches Some(alias) ==> alias_of(model@) == Some(alias@),
{
    if text::same_text(model, "gpt-5-codex") {
        Some("gpt-5")
    } else if text::same_text(model, "gpt-5.3-codex") {
        Some("gpt-5.2-codex")
    } else {
        None
    }
}

/// What the names of a provider's models start with.
pub const OPENAI: &'static str = "openai/";

/// What the names of a provider's models start with.
pub const AZURE: &'static str = "azure/";

/// What the names of a provider's models start with.
pub const OPENROUTER: &'static str = "openrouter/openai/";

/// Whether a key stands for a model after a prefix, letters of either case being the same.
pub open spec fn prefixed_match(key: Seq<char>, prefix: Seq<char>, model: Seq<char>) -> bool {
    text::has_prefix(key, prefix) && text::same_ignoring_case(
        key.skip(prefix.len() as int),
        model,
    )
}

/// Whether a key stands for a model, with a provider or without, letters of either case being the
/// same.
pub open spec fn loose_match(key: Seq<char>, model: Seq<char>) -> bool {
    ||| text::same_ignoring_case(key, model)
    ||| prefixed_match(key, OPENAI@, model)
    ||| prefixed_match(key, AZURE@, model)
    ||| prefixed_match(key, OPENROUTER@, model)
}

/// The key by which a catalog prices a model: its name, its name with a provider, or the first key
/// that stands for it.
pub open spec fn priced_by(models: Map<Seq<char>, LiteLLMModelPricing>, model: Seq<char>) -> Option<
    Seq<char>,
> {
    if models.dom().contains(model) {
        Some(model)
    } else if models.dom().contains(OPENAI@ + model) {
        Some(OPENAI@ + model)
    } else if models.dom().contains(AZURE@ + model) {
        Some(AZURE@ + model)
    } else if models.dom().contains(OPENROUTER@ + model) {
        Some(OPENROUTER@ + model)
    } else if exists|key: Seq<char>| first_loose_match(models, model, key) {
        Some(choose|key: Seq<char>| first_loose_match(models, model, key))
    } else {
        None
    }
}

/// Whether a key is the first of a catalog that stands for a model.
pub open spec fn first_loose_match(
    models: Map<Seq<char>, LiteLLMModelPricing>,
    model: Seq<char>,
    key: Seq<char>,
) -> bool {
    &&& models.dom().contains(key)
    &&& loose_match(key, model)
    &&& forall|other: Seq<char>| #[trigger]
        models.dom().contains(other) && loose_match(other, model) ==> other == key
            || text::precedes(key, other)
}

fn with_prefix(prefix: &str, model: &str) -> (name: String)
    ensures
        name@ == prefix@ + model@,
{
    let mut name = prefix.to_owned();
    name.append(model);
    name
}

fn matches_after(key: &str, prefix: &str, model: &str) -> (found: bool)
    ensures
        found == prefixed_match(key@, prefix@, model@),
{
    match text::strip_prefix(key, prefix) {
        Some(rest) => text::eq_ignore_ascii_case(rest.as_str(), model),
        None => false,
    }
}

fn matches_loosely(key: &str, model: &str) -> (found: bool)
    ensures
        found == loose_match(key@, model@),
{
    text::eq_ignore_ascii_case(key, model) || matches_after(key, OPENAI, model) || matches_after(
        key,
        AZURE,
        model,
    ) || matches_after(key, OPENROUTER, model)
}

/// What a catalog says of a model's prices.
pub fn direct_or_prefixed_lookup(models: &TextMap<LiteLLMModelPricing>, model: &str) -> (pricing:
    Option<LiteLLMModelPricing>)
    ensures
        pricing == match priced_by(models@, model@) {
            Some(key) => Some(models@[key]),
            None => None,
        },
{
    if let Some(pricing) = models.get(model) {
        return Some(*pricing);
    }
    if let Some(pricing) = models.get(with_prefix(OPENAI, model).as_str()) {
        return Some(*pricing);
    }
    if let Some(pricing) = models.get(with_prefix(AZURE, model).as_str()) {
        return Some(*pricing);
    }
    if let Some(pricing) = models.get(with_prefix(OPENROUTER, model).as_str()) {
        return Some(*pricing);
    }
    first_loosely_named(models, model)
}

fn first_loosely_named(models: &TextMap<LiteLLMModelPricing>, model: &str) -> (pricing: Option<
    LiteLLMModelPricing,
>)
    ensures
        pricing is Some <==> exists|key: Seq<char>| first_loose_match(models@, model@, key),
        pricing matches Some(pricing) ==> pricing == models@[choose|key: Seq<char>|
            first_loose_match(models@, model@, key)],
{
    let n = models.len();
    let ghost entries = models.entries();
    let mut i: usize = 0;
    while i < n
        invariant
            i <= n == entries.len(),
            entries == models.entries(),
            text_map::ordered(entries),
            forall|j: int| 0 <= j < i ==> !loose_match((#[trigger] entries[j]).0, model@),
        decreases n - i,
    {
        if matches_loosely(models.key_at(i).as_str(), model) {
            proof {
                let key = entries[i as int].0;
                text_map::lemma_entry_in_map(entries, i as int);
                assert forall|other: Seq<char>| #[trigger]
                    models@.dom().contains(other) && loose_match(other, model@) implies other == key
                    || text::precedes(key, other) by {
                    assert(text_map::has_key(entries, other));
                    let k = text_map::key_index(entries, other);
                    assert(entries[k].0 == other);
                }
                assert(first_loose_match(models@, model@, key));
                let chosen = choose|key: Seq<char>| first_loose_match(models@, model@, key);
                text::lemma_not_after_total(key, chosen);
            }
            return Some(*models.value_at(i));
        }
        i = i + 1;
    }
    proof {
        assert forall|key: Seq<char>| !first_loose_match(models@, model@, key) by {
            if models@.dom().contains(key) {
                assert(text_map::has_key(entries, key));
                let k = text_map::key_index(entries, key);
                assert(entries[k].0 == key);
            }
        }
    }
    None
}

/// The prices that a catalog's entry gives: input and output have to be there, and cached input
/// costs as much as other input where no price is given for it.
pub open spec fn given_pricing(pricing: LiteLLMModelPricing) -> Option<ModelPricing> {
    match (pricing.input_cost_per_token, pricing.output_cost_per_token) {
        (Some(input), Some(output)) => Some(
            ModelPricing {
                input_cost_per_million: Price::PerToken(input),
                cached_input_cost_per_million: Price::PerToken(
                    match pricing.cache_read_input_token_cost {
                        Some(cached) => cached,
                        None => input,
                    },
                ),
                output_cost_per_million: Price::PerToken(output),
            },
        ),
        _ => None,
    }
}

/// The prices that a catalog's entry gives.
pub fn to_model_pricing(pricing: &LiteLLMModelPricing) -> (prices: Option<ModelPricing>)
    ensures
        prices == given_pricing(*pricing),
{
    let input: u64 = match pricing.input_cost_per_token {
        Some(input) => input,
        None => {
            return None;
        },
    };
    let output: u64 = match pricing.output_cost_per_token {
        Some(output) => output,
        None => {
            return None;
        },
    };
    let cached: u64 = match pricing.cache_read_input_token_cost {
        Some(cached) => cached,
        None => input,
    };
    Some(
        ModelPricing {
            input_cost_per_million: Price::PerToken(input),
            cached_input_cost_per_million: Price::PerToken(cached),
            output_cost_per_million: Price::PerToken(output),
        },
    )
}

/// The prices that a catalog gives for a model, where it gives them in full.
pub open spec fn catalog_pricing(
    models: Map<Seq<char>, LiteLLMModelPricing>,
    model: Seq<char>,
) -> Option<ModelPricing> {
    match priced_by(models, model) {
        Some(key) => given_pricing(models[key]),
        None => None,
    }
}

/// The prices of a model: those that are pinned, else the catalog's, else those of the model that it
/// goes by.
pub open spec fn resolved_pricing(
    models: Map<Seq<char>, LiteLLMModelPricing>,
    model: Seq<char>,
) -> ModelPricing {
    match (pinned_pricing(model), catalog_pricing(models, model), alias_of(model)) {
        (Some(pricing), _, _) => pricing,
        (None, Some(pricing), _) => pricing,
        (None, None, Some(alias)) => match (pinned_pricing(alias), catalog_pricing(models, alias)) {
            (Some(pricing), _) => pricing,
            (None, Some(pricing)) => pricing,
            (None, None) => fallback_pricing(alias),
        },
        (None, None, None) => fallback_pricing(model),
    }
}

/// The prices of a model.
pub fn resolve_model_pricing(models: &TextMap<LiteLLMModelPricing>, model: &str) -> (pricing:
    ModelPricing)
    ensures
        pricing == resolved_pricing(models@, model@),
{
    if let Some(pricing) = pinned_model_pricing(model) {
        return pricing;
    }
    if let Some(entry) = direct_or_prefixed_lookup(models, model) {
        if let Some(pricing) = to_model_pricing(&entry) {
            return pricing;
        }
    }
    if let Some(alias) = model_alias(model) {
        if let Some(pricing) = pinned_model_pricing(alias) {
            return pricing;
        }
        if let Some(entry) = direct_or_prefixed_lookup(models, alias) {
            if let Some(pricing) = to_model_pricing(&entry) {
                return pricing;
            }
        }
        return fallback_model_pricing(alias);
    }
    fallback_model_pricing(model)
}

impl PricingCatalog {
    /// The prices of a model.
    pub fn pricing_for_model(&self, model: &str) -> (pricing: ModelPricing)
        ensures
            pricing == resolved_pricing(self.models@, model@),
    {
        resolve_model_pricing(&self.models, model)
    }
}

/// The prices of a model without a catalog.
pub fn pricing_for_model(model: &str) -> (pricing: ModelPricing)
    ensures
        pricing == resolved_pricing(Map::empty(), model@),
{
    resolve_model_pricing(&TextMap::new(), model)
}

/// The tokens that are paid for: input at the full price, input at the price of cached input, and
/// output.
#[derive(Debug, Clone, Copy, PartialEq, Eq, Structural)]
pub struct BilledTokens {
    pub input: u64,
    pub cached_input: u64,
    pub output: u64,
}

/// The tokens that are paid for. No more input is cached than there is, and cached input is not
/// paid for twice.
pub open spec fn billed(usage: Usage) -> BilledTokens {
    let cached = if usage.cached_input_tokens <= usage.input_tokens {
        usage.cached_input_tokens
    } else {
        usage.input_tokens
    };
    BilledTokens {
        input: (usage.input_tokens - cached) as u64,
        cached_input: cached,
        output: usage.output_tokens,
    }
}

/// The tokens that are paid for.
pub fn billed_tokens(usage: &Usage) -> (tokens: BilledTokens)
    ensures
        tokens == billed(*usage),
{
    let cached: u64 = if usage.cached_input_tokens <= usage.input_tokens {
        usage.cached_input_tokens
    } else {
        usage.input_tokens
    };
    BilledTokens {
        input: usage.input_tokens - cached,
        cached_input: cached,
        output: usage.output_tokens,
    }
}

/// Every input token is paid for once: at the full price what is billable, the rest as cached.
pub proof fn lemma_input_is_billed_once(usage: Usage)
    ensures
        billed(usage).input + billed(usage).cached_input == usage.input_tokens,
        billed(usage).input == usage.billable_input(),
{
}

/// A pinned price holds whatever a catalog says.
pub proof fn lemma_pinned_whatever_the_catalog(
    models: Map<Seq<char>, LiteLLMModelPricing>,
    model: Seq<char>,
)
    requires
        pinned_pricing(model) is Some,
    ensures
        Some(resolved_pricing(models, model)) == pinned_pricing(model),
{
}

/// A catalog's entry under the very name of a model comes before every other entry for it.
pub proof fn lemma_exact_name_first(
    models: Map<Seq<char>, LiteLLMModelPricing>,
    model: Seq<char>,
    other: LiteLLMModelPricing,
    key: Seq<char>,
)
    requires
        models.dom().contains(model),
        key != model,
    ensures
        resolved_pricing(models.insert(key, other), model) == resolved_pricing(models, model)
            || given_pricing(models[model]) is None,
{
}

/// Entries whose names do not stand for a model have no say in its price.
pub proof fn lemma_other_names_do_not_matter(
    models: Map<Seq<char>, LiteLLMModelPricing>,
    model: Seq<char>,
    key: Seq<char>,
    other: LiteLLMModelPricing,
)
    requires
        !loose_match(key, model),
        alias_of(model) matches Some(alias) ==> !loose_match(key, alias),
    ensures
        resolved_pricing(models.insert(key, other), model) == resolved_pricing(models, model),
{
    lemma_priced_without(models, model, key, other);
    if let Some(alias) = alias_of(model) {
        lemma_priced_without(models, alias, key, other);
    }
}

proof fn lemma_same_ignoring_case_reflexive(text: Seq<char>)
    ensures
        text::same_ignoring_case(text, text),
{
}

proof fn lemma_named_loosely(prefix: Seq<char>, model: Seq<char>)
    ensures
        prefixed_match(prefix + model, prefix, model),
{
    assert((prefix + model).take(prefix.len() as int) =~= prefix);
    assert((prefix + model).skip(prefix.len() as int) =~= model);
    lemma_same_ignoring_case_reflexive(model);
}

proof fn lemma_priced_without(
    models: Map<Seq<char>, LiteLLMModelPricing>,
    model: Seq<char>,
    key: Seq<char>,
    other: LiteLLMModelPricing,
)
    requires
        !loose_match(key, model),
    ensures
        catalog_pricing(models.insert(key, other), model) == catalog_pricing(models, model),
{
    let more = models.insert(key, other);
    lemma_same_ignoring_case_reflexive(model);
    lemma_named_loosely(OPENAI@, model);
    lemma_named_loosely(AZURE@, model);
    lemma_named_loosely(OPENROUTER@, model);
    assert forall|name: Seq<char>| first_loose_match(more, model, name) == first_loose_match(
        models,
        model,
        name,
    ) by {
        assert forall|name2: Seq<char>| #[trigger]
            models.dom().contains(name2) implies more.dom().contains(name2) by {}
        if first_loose_match(models, model, name) {
            assert forall|o: Seq<char>| #[trigger]
                more.dom().contains(o) && loose_match(o, model) implies o == name
                || text::precedes(name, o) by {
                assert(models.dom().contains(o));
            }
        }
        if first_loose_match(more, model, name) {
            assert forall|o: Seq<char>| #[trigger]
                models.dom().contains(o) && loose_match(o, model) implies o == name
                || text::precedes(name, o) by {
                assert(more.dom().contains(o));
            }
        }
    }
    if exists|name: Seq<char>| first_loose_match(models, model, name) {
        let a = choose|name: Seq<char>| first_loose_match(models, model, name);
        assert(first_loose_match(more, model, a));
        let b = choose|name: Seq<char>| first_loose_match(more, model, name);
        assert(first_loose_match(models, model, b));
        text::lemma_not_after_total(a, b);
    } else {
        if exists|name: Seq<char>| first_loose_match(more, model, name) {
            let b = choose|name: Seq<char>| first_loose_match(more, model, name);
            assert(first_loose_match(models, model, b));
        }
    }
}

} // verus!
