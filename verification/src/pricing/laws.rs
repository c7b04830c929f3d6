//! What the prices of a model are.

use crate::pricing;
use crate::pricing::catalog;
use crate::pricing::catalog::{CatalogFile, LoadAction, LoadEvent};
use crate::pricing::{
    BilledTokens, CachedPricingCatalog, LiteLLMModelPricing, ModelPricing, Price, PricingCatalog,
};
use crate::text;
use crate::text_map::TextMap;
use crate::types::Usage;
use vstd::prelude::*;

verus! {

/// Whether prices are those of a catalog's entry that gives them in full: per token, and cached
/// input for the price of other input where it has none of its own.
pub open spec fn are_given_by(pricing: ModelPricing, entry: LiteLLMModelPricing) -> bool {
    &&& entry.input_cost_per_token is Some
    &&& entry.output_cost_per_token is Some
    &&& pricing.input_cost_per_million == Price::PerToken(entry.input_cost_per_token->0)
    &&& pricing.output_cost_per_million == Price::PerToken(entry.output_cost_per_token->0)
    &&& entry.cache_read_input_token_cost matches Some(cached)
        ==> pricing.cached_input_cost_per_million == Price::PerToken(cached)
    &&& entry.cache_read_input_token_cost is None ==> pricing.cached_input_cost_per_million
        == pricing.input_cost_per_million
}

/// Whether an entry gives prices in full: for input and for output.
pub open spec fn is_full(entry: LiteLLMModelPricing) -> bool {
    entry.input_cost_per_token is Some && entry.output_cost_per_token is Some
}

/// An entry gives prices exactly where it gives them in full, and these are the ones it gives.
pub proof fn lemma_prices_of_an_entry(entry: &LiteLLMModelPricing, prices: Option<ModelPricing>)
    requires
        call_ensures(pricing::to_model_pricing, (entry,), prices),
    ensures
        prices is Some <==> is_full(*entry),
        prices matches Some(prices) ==> are_given_by(prices, *entry),
{
}

/// A model that is not pinned and that the catalog prices in full under its very name costs what
/// that entry says, whatever else the catalog holds.
pub proof fn lemma_very_name_sets_the_price(
    models: &TextMap<LiteLLMModelPricing>,
    model: &str,
    pricing: ModelPricing,
)
    requires
        call_ensures(pricing::resolve_model_pricing, (models, model), pricing),
        model@ != "gpt-5.3-codex-spark"@,
        models@.dom().contains(model@),
        is_full(models@[model@]),
    ensures
        are_given_by(pricing, models@[model@]),
{
}

/// A pinned model costs nothing, whatever the catalog says; no other model is pinned.
pub proof fn lemma_pinned_model_is_free(
    models: &TextMap<LiteLLMModelPricing>,
    model: &str,
    pricing: ModelPricing,
    pinned: Option<ModelPricing>,
)
    requires
        call_ensures(pricing::resolve_model_pricing, (models, model), pricing),
        call_ensures(pricing::pinned_model_pricing, (model,), pinned),
    ensures
        pinned is Some <==> model@ == "gpt-5.3-codex-spark"@,
        pinned matches Some(pinned) ==> pricing == pinned && pinned.input_cost_per_million
            == Price::MicroDollars(0) && pinned.cached_input_cost_per_million
            == Price::MicroDollars(0) && pinned.output_cost_per_million == Price::MicroDollars(0),
{
}

/// The catalog is asked for a model first by its very name, then by its name with each provider in
/// turn.
pub proof fn lemma_names_are_asked_in_turn(
    models: &TextMap<LiteLLMModelPricing>,
    model: &str,
    found: Option<LiteLLMModelPricing>,
)
    requires
        call_ensures(pricing::direct_or_prefixed_lookup, (models, model), found),
    ensures
        models@.dom().contains(model@) ==> found == Some(models@[model@]),
        !models@.dom().contains(model@) && models@.dom().contains("openai/"@ + model@) ==> found
            == Some(models@["openai/"@ + model@]),
        !models@.dom().contains(model@) && !models@.dom().contains("openai/"@ + model@)
            && models@.dom().contains("azure/"@ + model@) ==> found == Some(
            models@["azure/"@ + model@],
        ),
        !models@.dom().contains(model@) && !models@.dom().contains("openai/"@ + model@)
            && !models@.dom().contains("azure/"@ + model@) && models@.dom().contains(
            "openrouter/openai/"@ + model@,
        ) ==> found == Some(models@["openrouter/openai/"@ + model@]),
{
}

/// Whether a key is a model's name, or its name after that of a provider, in letters of any case;
/// the provider's are small.
pub open spec fn stands_for(key: Seq<char>, model: Seq<char>) -> bool {
    ||| text::same_ignoring_case(key, model)
    ||| key.len() >= 7 && key.take(7) =~= "openai/"@ && text::same_ignoring_case(
        key.skip(7),
        model,
    )
    ||| key.len() >= 6 && key.take(6) =~= "azure/"@ && text::same_ignoring_case(key.skip(6), model)
    ||| key.len() >= 18 && key.take(18) =~= "openrouter/openai/"@ && text::same_ignoring_case(
        key.skip(18),
        model,
    )
}

proof fn lemma_stands_for(key: Seq<char>, model: Seq<char>)
    ensures
        stands_for(key, model) == pricing::loose_match(key, model),
{
    reveal_strlit("openai/");
    reveal_strlit("azure/");
    reveal_strlit("openrouter/openai/");
}

/// A catalog that has a model under none of these names prices it by the first of its keys that
/// stands for the model.
pub proof fn lemma_first_of_the_like(
    models: &TextMap<LiteLLMModelPricing>,
    model: &str,
    key: Seq<char>,
    found: Option<LiteLLMModelPricing>,
)
    requires
        call_ensures(pricing::direct_or_prefixed_lookup, (models, model), found),
        !models@.dom().contains(model@),
        !models@.dom().contains("openai/"@ + model@),
        !models@.dom().contains("azure/"@ + model@),
        !models@.dom().contains("openrouter/openai/"@ + model@),
        models@.dom().contains(key),
        stands_for(key, model@),
        forall|other: Seq<char>| #[trigger]
            models@.dom().contains(other) && stands_for(other, model@) ==> other == key
                || text::precedes(key, other),
    ensures
        found == Some(models@[key]),
{
    lemma_stands_for(key, model@);
    assert forall|other: Seq<char>| #[trigger]
        models@.dom().contains(other) && pricing::loose_match(other, model@) implies other == key
        || text::precedes(key, other) by {
        lemma_stands_for(other, model@);
    }
    assert(pricing::first_loose_match(models@, model@, key));
    let chosen = choose|name: Seq<char>| pricing::first_loose_match(models@, model@, name);
    text::lemma_not_after_total(key, chosen);
}

/// What a catalog says of a model, it says under a key that stands for it: without such a key it
/// says nothing.
pub proof fn lemma_nothing_like_it(
    models: &TextMap<LiteLLMModelPricing>,
    model: &str,
    found: Option<LiteLLMModelPricing>,
)
    requires
        call_ensures(pricing::direct_or_prefixed_lookup, (models, model), found),
        forall|key: Seq<char>| #[trigger]
            models@.dom().contains(key) ==> !stands_for(key, model@),
    ensures
        found is None,
{
    lemma_prefixed_stands_for(7, "openai/"@, model@);
    lemma_prefixed_stands_for(6, "azure/"@, model@);
    lemma_prefixed_stands_for(18, "openrouter/openai/"@, model@);
    assert(text::same_ignoring_case(model@, model@));
    assert forall|key: Seq<char>| !pricing::first_loose_match(models@, model@, key) by {
        lemma_stands_for(key, model@);
    }
}

proof fn lemma_prefixed_stands_for(n: int, prefix: Seq<char>, model: Seq<char>)
    requires
        n == 7 && prefix == "openai/"@ || n == 6 && prefix == "azure/"@ || n == 18 && prefix
            == "openrouter/openai/"@,
    ensures
        stands_for(prefix + model, model),
{
    reveal_strlit("openai/");
    reveal_strlit("azure/");
    reveal_strlit("openrouter/openai/");
    assert((prefix + model).take(n) =~= prefix);
    assert((prefix + model).skip(n) =~= model);
    assert(text::same_ignoring_case(model, model));
}

/// A model that the catalog prices in full, under whatever name it is found, costs what that entry
/// says.
pub proof fn lemma_catalog_sets_the_price(
    models: &TextMap<LiteLLMModelPricing>,
    model: &str,
    entry: LiteLLMModelPricing,
    pricing: ModelPricing,
)
    requires
        call_ensures(pricing::resolve_model_pricing, (models, model), pricing),
        call_ensures(pricing::direct_or_prefixed_lookup, (models, model), Some(entry)),
        model@ != "gpt-5.3-codex-spark"@,
        is_full(entry),
    ensures
        are_given_by(pricing, entry),
{
}

/// A model that goes by another costs what that one costs, where the catalog does not price it in
/// full itself.
pub proof fn lemma_alias_sets_the_price(
    models: &TextMap<LiteLLMModelPricing>,
    model: &str,
    other: &str,
    found: Option<LiteLLMModelPricing>,
    pricing: ModelPricing,
    price_of_other: ModelPricing,
)
    requires
        call_ensures(pricing::resolve_model_pricing, (models, model), pricing),
        call_ensures(pricing::resolve_model_pricing, (models, other), price_of_other),
        call_ensures(pricing::direct_or_prefixed_lookup, (models, model), found),
        found matches Some(entry) ==> !is_full(entry),
        model@ == "gpt-5-codex"@ && other@ == "gpt-5"@ || model@ == "gpt-5.3-codex"@ && other@
            == "gpt-5.2-codex"@,
    ensures
        pricing == price_of_other,
{
    reveal_strlit("gpt-5-codex");
    reveal_strlit("gpt-5");
    reveal_strlit("gpt-5.3-codex");
    reveal_strlit("gpt-5.2-codex");
    reveal_strlit("gpt-5.3-codex-spark");
    assert("gpt-5.3-codex"@[6] == '3');
    assert("gpt-5.2-codex"@[6] == '2');
}

/// Two models go by another; no other does.
pub proof fn lemma_aliases(model: &str, alias: Option<&'static str>)
    requires
        call_ensures(pricing::model_alias, (model,), alias),
    ensures
        alias is Some <==> model@ == "gpt-5-codex"@ || model@ == "gpt-5.3-codex"@,
        alias matches Some(alias) ==> (model@ == "gpt-5-codex"@ ==> alias@ == "gpt-5"@) && (model@
            == "gpt-5.3-codex"@ ==> alias@ == "gpt-5.2-codex"@),
{
    reveal_strlit("gpt-5-codex");
    reveal_strlit("gpt-5.3-codex");
    assert("gpt-5-codex"@.len() == 11);
    assert("gpt-5.3-codex"@.len() == 13);
}

/// A model that neither the catalog prices in full nor another stands for costs what is known of
/// it.
pub proof fn lemma_known_prices_come_last(
    models: &TextMap<LiteLLMModelPricing>,
    model: &str,
    found: Option<LiteLLMModelPricing>,
    pricing: ModelPricing,
    known: ModelPricing,
)
    requires
        call_ensures(pricing::resolve_model_pricing, (models, model), pricing),
        call_ensures(pricing::fallback_model_pricing, (model,), known),
        call_ensures(pricing::direct_or_prefixed_lookup, (models, model), found),
        found matches Some(entry) ==> !is_full(entry),
        model@ != "gpt-5.3-codex-spark"@,
        model@ != "gpt-5-codex"@,
        model@ != "gpt-5.3-codex"@,
    ensures
        pricing == known,
{
}

/// Whether prices are so many millionths of a dollar for a million tokens of input and of output,
/// and a tenth of the price of input for cached input.
pub open spec fn are_micro_dollars(pricing: ModelPricing, input: int, output: int) -> bool {
    &&& pricing.input_cost_per_million matches Price::MicroDollars(n) && n == input
    &&& pricing.cached_input_cost_per_million matches Price::MicroDollars(n) && n * 10 == input
    &&& pricing.output_cost_per_million matches Price::MicroDollars(n) && n == output
}

/// What is known of a model's prices: cached input costs a tenth of other input. A model that is not
/// known costs nothing.
pub proof fn lemma_known_prices(model: &str, pricing: ModelPricing)
    requires
        call_ensures(pricing::fallback_model_pricing, (model,), pricing),
    ensures
        model@ == "gpt-5.6-luna"@ ==> are_micro_dollars(pricing, 1_000_000, 6_000_000),
        model@ == "gpt-5.6-terra"@ || model@ == "gpt-5.4"@ || model@ == "gpt-5.4-codex"@
            ==> are_micro_dollars(pricing, 2_500_000, 15_000_000),
        model@ == "gpt-5.6-sol"@ || model@ == "gpt-5.5"@ ==> are_micro_dollars(
            pricing,
            5_000_000,
            30_000_000,
        ),
        model@ == "gpt-5.4-mini"@ ==> are_micro_dollars(pricing, 750_000, 4_500_000),
        model@ == "gpt-5.2-codex"@ || model@ == "gpt-5.3-codex"@ ==> are_micro_dollars(
            pricing,
            1_750_000,
            14_000_000,
        ),
        model@ == "gpt-5"@ || model@ == "gpt-5-codex"@ ==> are_micro_dollars(
            pricing,
            1_250_000,
            10_000_000,
        ),
        model@ != "gpt-5.6-luna"@ && model@ != "gpt-5.6-terra"@ && model@ != "gpt-5.6-sol"@
            && model@ != "gpt-5.5"@ && model@ != "gpt-5.4-mini"@ && model@ != "gpt-5.4"@ && model@
            != "gpt-5.4-codex"@ && model@ != "gpt-5.2-codex"@ && model@ != "gpt-5.3-codex"@
            && model@ != "gpt-5"@ && model@ != "gpt-5-codex"@ ==> are_micro_dollars(pricing, 0, 0),
{
    reveal_strlit("gpt-5.6-luna");
    reveal_strlit("gpt-5.6-terra");
    reveal_strlit("gpt-5.6-sol");
    reveal_strlit("gpt-5.5");
    reveal_strlit("gpt-5.4-mini");
    reveal_strlit("gpt-5.4");
    reveal_strlit("gpt-5.4-codex");
    reveal_strlit("gpt-5.2-codex");
    reveal_strlit("gpt-5.3-codex");
    reveal_strlit("gpt-5");
    reveal_strlit("gpt-5-codex");
    assert("gpt-5.6-luna"@.len() == 12);
    assert("gpt-5.6-terra"@.len() == 13);
    assert("gpt-5.6-sol"@.len() == 11);
    assert("gpt-5.5"@.len() == 7);
    assert("gpt-5.4-mini"@.len() == 12);
    assert("gpt-5.4"@.len() == 7);
    assert("gpt-5.4-codex"@.len() == 13);
    assert("gpt-5.2-codex"@.len() == 13);
    assert("gpt-5.3-codex"@.len() == 13);
    assert("gpt-5"@.len() == 5);
    assert("gpt-5-codex"@.len() == 11);
    assert("gpt-5.6-luna"@[6] == '6');
    assert("gpt-5.6-terra"@[6] == '6');
    assert("gpt-5.6-sol"@[6] == '6');
    assert("gpt-5.5"@[6] == '5');
    assert("gpt-5.4-mini"@[6] == '4');
    assert("gpt-5.4"@[6] == '4');
    assert("gpt-5.4-codex"@[6] == '4');
    assert("gpt-5.2-codex"@[6] == '2');
    assert("gpt-5.3-codex"@[6] == '3');
    assert("gpt-5-codex"@[6] == 'c');
}

/// A catalog prices a model as its entries do; without one a model costs what it costs by a catalog
/// of no entries.
pub proof fn lemma_with_and_without_a_catalog(
    catalog: &PricingCatalog,
    models: &TextMap<LiteLLMModelPricing>,
    model: &str,
    by_catalog: ModelPricing,
    by_entries: ModelPricing,
    alone: ModelPricing,
)
    requires
        call_ensures(PricingCatalog::pricing_for_model, (catalog, model), by_catalog),
        call_ensures(pricing::resolve_model_pricing, (models, model), by_entries),
        call_ensures(pricing::pricing_for_model, (model,), alone),
    ensures
        catalog.models@ == models@ ==> by_catalog == by_entries,
        models@.dom() =~= Set::<Seq<char>>::empty() ==> alone == by_entries,
{
    if models@.dom() =~= Set::<Seq<char>>::empty() {
        assert(models@ =~= Map::<Seq<char>, LiteLLMModelPricing>::empty());
    }
}

/// Every input token is paid for once: as cached input as far as it was cached, and else in full;
/// and every token of output.
pub proof fn lemma_every_token_is_paid_for_once(usage: &Usage, tokens: BilledTokens)
    requires
        call_ensures(pricing::billed_tokens, (usage,), tokens),
    ensures
        tokens.output == usage.output_tokens,
        tokens.input + tokens.cached_input == usage.input_tokens,
        usage.cached_input_tokens <= usage.input_tokens ==> tokens.cached_input
            == usage.cached_input_tokens,
        usage.cached_input_tokens > usage.input_tokens ==> tokens.input == 0,
{
}

/// What a file holds is what is read of it, however old.
pub proof fn lemma_file_of_a_catalog(file: CatalogFile, cached: Option<CachedPricingCatalog>)
    requires
        call_ensures(catalog::load_cached_catalog_any_age, (file,), cached),
    ensures
        file matches CatalogFile::Catalog(held) ==> cached == Some(held),
        !(file is Catalog) ==> cached is None,
{
}

/// A cached catalog is used for a day after it was fetched, and not longer.
pub proof fn lemma_catalogs_last_a_day(
    cached: CachedPricingCatalog,
    now: u64,
    fresh: Option<CachedPricingCatalog>,
    none: Option<CachedPricingCatalog>,
)
    requires
        call_ensures(catalog::load_cached_catalog, (Some(cached), now), fresh),
        call_ensures(catalog::load_cached_catalog, (None, now), none),
    ensures
        now <= cached.fetched_unix_ms + 24 * 60 * 60 * 1000 ==> fresh == Some(cached),
        now > cached.fetched_unix_ms + 24 * 60 * 60 * 1000 ==> fresh is None,
        none is None,
{
}

/// A cached catalog that is up to date is used as it is, and none is asked for; an older one, or
/// none, has the catalog asked for.
pub proof fn lemma_cached_catalog_first(
    cached: Option<CachedPricingCatalog>,
    now: u64,
    action: LoadAction,
)
    requires
        call_ensures(PricingCatalog::load_at, (LoadEvent::CacheRead(cached), now), action),
    ensures
        cached matches Some(cached) ==> if now <= cached.fetched_unix_ms + 24 * 60 * 60 * 1000 {
            action matches LoadAction::Done(catalog) && catalog.models == cached.models
        } else {
            action is Fetch
        },
        cached is None ==> action is Fetch,
{
}

/// A fetched catalog is saved as it came and then used; where none came, the cached one is used
/// however old it is, or else a catalog of no prices.
pub proof fn lemma_fetched_catalog_is_saved_and_used(
    fetched: CachedPricingCatalog,
    now: u64,
    on_fetch: LoadAction,
    on_save: LoadAction,
    on_failure: LoadAction,
    on_stale: LoadAction,
    on_nothing: LoadAction,
)
    requires
        call_ensures(PricingCatalog::load_at, (LoadEvent::Fetched(Some(fetched)), now), on_fetch),
        call_ensures(PricingCatalog::load_at, (LoadEvent::Saved(fetched), now), on_save),
        call_ensures(PricingCatalog::load_at, (LoadEvent::Fetched(None), now), on_failure),
        call_ensures(PricingCatalog::load_at, (LoadEvent::StaleRead(Some(fetched)), now), on_stale),
        call_ensures(PricingCatalog::load_at, (LoadEvent::StaleRead(None), now), on_nothing),
    ensures
        on_fetch == LoadAction::Save(fetched),
        on_save matches LoadAction::Done(catalog) && catalog.models == fetched.models,
        on_failure is ReadStale,
        on_stale matches LoadAction::Done(catalog) && catalog.models == fetched.models,
        on_nothing matches LoadAction::Done(catalog) && catalog.models@.dom() =~= Set::<
            Seq<char>,
        >::empty(),
{
}

} // verus!
