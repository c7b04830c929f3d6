use codex_usage::pricing::catalog::{
    CatalogFile, LoadAction, LoadEvent, PRICING_TTL_MS, load_cached_catalog,
    load_cached_catalog_any_age,
};
use codex_usage::pricing::{
    CachedPricingCatalog, LiteLLMModelPricing, ModelPricing, Price, PricingCatalog, billed_tokens,
    direct_or_prefixed_lookup, model_alias, pricing_for_model, resolve_model_pricing,
    to_model_pricing,
};
use codex_usage::text_map::TextMap;
use codex_usage::types::Usage;

fn dollars(price: Price) -> f64 {
    match price {
        Price::MicroDollars(micro) => micro as f64 / 1_000_000.0,
        Price::PerToken(bits) => f64::from_bits(bits) * 1_000_000.0,
    }
}

fn entry(input: f64, output: f64, cached: f64) -> LiteLLMModelPricing {
    LiteLLMModelPricing {
        input_cost_per_token: Some(input.to_bits()),
        output_cost_per_token: Some(output.to_bits()),
        cache_read_input_token_cost: Some(cached.to_bits()),
    }
}

fn priced(bits: u64) -> LiteLLMModelPricing {
    LiteLLMModelPricing {
        input_cost_per_token: Some(bits),
        output_cost_per_token: Some(bits),
        cache_read_input_token_cost: None,
    }
}

fn catalog_of(models: &[(&str, LiteLLMModelPricing)]) -> TextMap<LiteLLMModelPricing> {
    let mut catalog = TextMap::new();
    for (name, pricing) in models {
        catalog.insert(name.to_string(), *pricing);
    }
    catalog
}

fn empty_catalog() -> PricingCatalog {
    PricingCatalog::default()
}

fn usage_cost_usd(catalog: &PricingCatalog, model: &str, usage: &Usage) -> f64 {
    let pricing = catalog.pricing_for_model(model);
    let tokens = billed_tokens(usage);
    (tokens.input as f64 / 1_000_000.0) * dollars(pricing.input_cost_per_million)
        + (tokens.cached_input as f64 / 1_000_000.0)
            * dollars(pricing.cached_input_cost_per_million)
        + (tokens.output as f64 / 1_000_000.0) * dollars(pricing.output_cost_per_million)
}

fn assert_prices(pricing: ModelPricing, input: f64, cached_input: f64, output: f64) {
    assert_eq!(dollars(pricing.input_cost_per_million), input);
    assert_eq!(dollars(pricing.cached_input_cost_per_million), cached_input);
    assert_eq!(dollars(pricing.output_cost_per_million), output);
}

#[test]
fn pricing_resolves_gpt_5_4_family_pricing() {
    let pricing = pricing_for_model("gpt-5.4-codex");
    assert_eq!(dollars(pricing.input_cost_per_million), 2.50);
    assert_eq!(dollars(pricing.cached_input_cost_per_million), 0.25);
    assert_eq!(dollars(pricing.output_cost_per_million), 15.0);
}

#[test]
fn pricing_resolves_gpt_5_2_codex_family_pricing() {
    let pricing = pricing_for_model("gpt-5.3-codex");
    assert_eq!(dollars(pricing.input_cost_per_million), 1.75);
    assert_eq!(dollars(pricing.cached_input_cost_per_million), 0.175);
    assert_eq!(dollars(pricing.output_cost_per_million), 14.0);
}

#[test]
fn pricing_resolves_gpt_5_3_codex_spark_as_zero_cost() {
    let pricing = pricing_for_model("gpt-5.3-codex-spark");
    assert_eq!(dollars(pricing.input_cost_per_million), 0.0);
    assert_eq!(dollars(pricing.cached_input_cost_per_million), 0.0);
    assert_eq!(dollars(pricing.output_cost_per_million), 0.0);
}

#[test]
fn pricing_calculates_gpt_5_4_usage_cost() {
    let cost = usage_cost_usd(
        &empty_catalog(),
        "gpt-5.4",
        &Usage {
            input_tokens: 1_000_000,
            cached_input_tokens: 1_000_000,
            output_tokens: 1_000_000,
            reasoning_output_tokens: 0,
            total_tokens: 3_000_000,
        },
    );

    assert!((cost - 15.25).abs() < f64::EPSILON);
}

#[test]
fn pricing_does_not_double_count_cached_input_tokens() {
    let cost = usage_cost_usd(
        &empty_catalog(),
        "gpt-5",
        &Usage {
            input_tokens: 1_000,
            cached_input_tokens: 200,
            output_tokens: 500,
            reasoning_output_tokens: 0,
            total_tokens: 1_500,
        },
    );

    let expected =
        (800.0 / 1_000_000.0) * 1.25 + (200.0 / 1_000_000.0) * 0.125 + (500.0 / 1_000_000.0) * 10.0;
    assert!((cost - expected).abs() < f64::EPSILON);
}

#[test]
fn pricing_keeps_gpt_5_3_codex_spark_free_even_with_remote_catalog_data() {
    let models = catalog_of(&[("gpt-5.3-codex-spark", entry(9.9e-6, 9.9e-5, 9.9e-7))]);

    let pricing = resolve_model_pricing(&models, "gpt-5.3-codex-spark");
    assert_eq!(dollars(pricing.input_cost_per_million), 0.0);
    assert_eq!(dollars(pricing.cached_input_cost_per_million), 0.0);
    assert_eq!(dollars(pricing.output_cost_per_million), 0.0);
}

#[test]
fn pricing_calculates_zero_cost_for_gpt_5_3_codex_spark_usage() {
    let cost = usage_cost_usd(
        &empty_catalog(),
        "gpt-5.3-codex-spark",
        &Usage {
            input_tokens: 1_000_000,
            cached_input_tokens: 500_000,
            output_tokens: 1_000_000,
            reasoning_output_tokens: 0,
            total_tokens: 2_000_000,
        },
    );

    assert!((cost - 0.0).abs() < f64::EPSILON);
}

#[test]
fn pricing_uses_remote_alias_pricing_for_gpt_5_3_codex() {
    let models = catalog_of(&[("gpt-5.2-codex", entry(1.9e-6, 1.5e-5, 1.9e-7))]);

    let pricing = resolve_model_pricing(&models, "gpt-5.3-codex");
    assert_eq!(dollars(pricing.input_cost_per_million), 1.9);
    assert_eq!(dollars(pricing.cached_input_cost_per_million), 0.19);
    assert_eq!(dollars(pricing.output_cost_per_million), 15.0);
}

#[test]
fn pricing_does_not_fuzzily_match_other_model_names() {
    let models = catalog_of(&[
        (
            "openai/gpt-5",
            entry(1.25 / 1_000_000.0, 10.0 / 1_000_000.0, 0.125 / 1_000_000.0),
        ),
        (
            "openai/gpt-5-mini",
            entry(9.99 / 1_000_000.0, 99.0 / 1_000_000.0, 0.99 / 1_000_000.0),
        ),
    ]);

    let pricing = resolve_model_pricing(&models, "gpt-5");
    assert_eq!(dollars(pricing.input_cost_per_million), 1.25);
    assert_eq!(dollars(pricing.output_cost_per_million), 10.0);
}

#[test]
fn pricing_tests_resolves_gpt_5_4_family_pricing() {
    let pricing = pricing_for_model("gpt-5.4-codex");
    assert_eq!(dollars(pricing.input_cost_per_million), 2.50);
    assert_eq!(dollars(pricing.cached_input_cost_per_million), 0.25);
    assert_eq!(dollars(pricing.output_cost_per_million), 15.0);
}

#[test]
fn resolves_gpt_5_4_mini_pricing() {
    let pricing = pricing_for_model("gpt-5.4-mini");
    assert_eq!(dollars(pricing.input_cost_per_million), 0.75);
    assert_eq!(dollars(pricing.cached_input_cost_per_million), 0.075);
    assert_eq!(dollars(pricing.output_cost_per_million), 4.50);
}

#[test]
fn resolves_gpt_5_5_pricing() {
    let pricing = pricing_for_model("gpt-5.5");
    assert_eq!(dollars(pricing.input_cost_per_million), 5.00);
    assert_eq!(dollars(pricing.cached_input_cost_per_million), 0.50);
    assert_eq!(dollars(pricing.output_cost_per_million), 30.00);
}

#[test]
fn resolves_gpt_5_6_family_pricing() {
    for (model, input, cached_input, output) in [
        ("gpt-5.6-luna", 1.00, 0.10, 6.00),
        ("gpt-5.6-terra", 2.50, 0.25, 15.00),
        ("gpt-5.6-sol", 5.00, 0.50, 30.00),
    ] {
        let pricing = pricing_for_model(model);
        assert_eq!(dollars(pricing.input_cost_per_million), input, "{model}");
        assert_eq!(
            dollars(pricing.cached_input_cost_per_million),
            cached_input,
            "{model}"
        );
        assert_eq!(dollars(pricing.output_cost_per_million), output, "{model}");
    }
}

#[test]
fn calculates_gpt_5_6_family_usage_cost() {
    let usage = Usage {
        input_tokens: 2_000_000,
        cached_input_tokens: 1_000_000,
        output_tokens: 1_000_000,
        reasoning_output_tokens: 0,
        total_tokens: 3_000_000,
    };

    for (model, expected) in [
        ("gpt-5.6-luna", 7.10),
        ("gpt-5.6-terra", 17.75),
        ("gpt-5.6-sol", 35.50),
    ] {
        let cost = usage_cost_usd(&empty_catalog(), model, &usage);
        assert!((cost - expected).abs() < f64::EPSILON, "{model}");
    }
}

#[test]
fn pricing_tests_resolves_gpt_5_2_codex_family_pricing() {
    let pricing = pricing_for_model("gpt-5.3-codex");
    assert_eq!(dollars(pricing.input_cost_per_million), 1.75);
    assert_eq!(dollars(pricing.cached_input_cost_per_million), 0.175);
    assert_eq!(dollars(pricing.output_cost_per_million), 14.0);
}

#[test]
fn pricing_tests_resolves_gpt_5_3_codex_spark_as_zero_cost() {
    let pricing = pricing_for_model("gpt-5.3-codex-spark");
    assert_eq!(dollars(pricing.input_cost_per_million), 0.0);
    assert_eq!(dollars(pricing.cached_input_cost_per_million), 0.0);
    assert_eq!(dollars(pricing.output_cost_per_million), 0.0);
}

#[test]
fn pricing_tests_calculates_gpt_5_4_usage_cost() {
    let cost = usage_cost_usd(
        &empty_catalog(),
        "gpt-5.4",
        &Usage {
            input_tokens: 1_000_000,
            cached_input_tokens: 1_000_000,
            output_tokens: 1_000_000,
            reasoning_output_tokens: 0,
            total_tokens: 3_000_000,
        },
    );

    assert!((cost - 15.25).abs() < f64::EPSILON);
}

#[test]
fn pricing_tests_does_not_double_count_cached_input_tokens() {
    let cost = usage_cost_usd(
        &empty_catalog(),
        "gpt-5",
        &Usage {
            input_tokens: 1_000,
            cached_input_tokens: 200,
            output_tokens: 500,
            reasoning_output_tokens: 0,
            total_tokens: 1_500,
        },
    );

    let expected =
        (800.0 / 1_000_000.0) * 1.25 + (200.0 / 1_000_000.0) * 0.125 + (500.0 / 1_000_000.0) * 10.0;
    assert!((cost - expected).abs() < f64::EPSILON);
}

#[test]
fn prices_unknown_models_at_zero_cost() {
    let pricing = pricing_for_model("gpt-unknown-codex");

    assert_eq!(dollars(pricing.input_cost_per_million), 0.0);
    assert_eq!(dollars(pricing.cached_input_cost_per_million), 0.0);
    assert_eq!(dollars(pricing.output_cost_per_million), 0.0);
}

#[test]
fn pricing_tests_keeps_gpt_5_3_codex_spark_free_even_with_remote_catalog_data() {
    let models = catalog_of(&[("gpt-5.3-codex-spark", entry(9.9e-6, 9.9e-5, 9.9e-7))]);

    let pricing = resolve_model_pricing(&models, "gpt-5.3-codex-spark");
    assert_eq!(dollars(pricing.input_cost_per_million), 0.0);
    assert_eq!(dollars(pricing.cached_input_cost_per_million), 0.0);
    assert_eq!(dollars(pricing.output_cost_per_million), 0.0);
}

#[test]
fn pricing_tests_calculates_zero_cost_for_gpt_5_3_codex_spark_usage() {
    let cost = usage_cost_usd(
        &empty_catalog(),
        "gpt-5.3-codex-spark",
        &Usage {
            input_tokens: 1_000_000,
            cached_input_tokens: 500_000,
            output_tokens: 1_000_000,
            reasoning_output_tokens: 0,
            total_tokens: 2_000_000,
        },
    );

    assert!((cost - 0.0).abs() < f64::EPSILON);
}

#[test]
fn pricing_tests_uses_remote_alias_pricing_for_gpt_5_3_codex() {
    let models = catalog_of(&[("gpt-5.2-codex", entry(1.9e-6, 1.5e-5, 1.9e-7))]);

    let pricing = resolve_model_pricing(&models, "gpt-5.3-codex");
    assert_eq!(dollars(pricing.input_cost_per_million), 1.9);
    assert_eq!(dollars(pricing.cached_input_cost_per_million), 0.19);
    assert_eq!(dollars(pricing.output_cost_per_million), 15.0);
}

#[test]
fn pricing_tests_does_not_fuzzily_match_other_model_names() {
    let models = catalog_of(&[
        (
            "openai/gpt-5",
            entry(1.25 / 1_000_000.0, 10.0 / 1_000_000.0, 0.125 / 1_000_000.0),
        ),
        (
            "openai/gpt-5-mini",
            entry(9.99 / 1_000_000.0, 99.0 / 1_000_000.0, 0.99 / 1_000_000.0),
        ),
    ]);

    let pricing = resolve_model_pricing(&models, "gpt-5");
    assert_eq!(dollars(pricing.input_cost_per_million), 1.25);
    assert_eq!(dollars(pricing.output_cost_per_million), 10.0);
}

#[test]
fn every_built_in_price_is_the_published_one() {
    assert_prices(pricing_for_model("gpt-5"), 1.25, 0.125, 10.0);
    assert_prices(pricing_for_model("gpt-5-codex"), 1.25, 0.125, 10.0);
    assert_prices(pricing_for_model("gpt-5.2-codex"), 1.75, 0.175, 14.0);
    assert_prices(pricing_for_model("gpt-5.4"), 2.50, 0.25, 15.0);
}

#[test]
fn the_very_name_of_a_model_comes_before_other_keys() {
    let models = catalog_of(&[
        ("GPT-X", priced(1)),
        ("azure/gpt-x", priced(2)),
        ("gpt-x", priced(3)),
        ("openai/gpt-x", priced(4)),
        ("openrouter/openai/gpt-x", priced(5)),
    ]);
    assert_eq!(direct_or_prefixed_lookup(&models, "gpt-x"), Some(priced(3)));

    let models = catalog_of(&[
        ("GPT-X", priced(1)),
        ("azure/gpt-x", priced(2)),
        ("openai/gpt-x", priced(4)),
        ("openrouter/openai/gpt-x", priced(5)),
    ]);
    assert_eq!(direct_or_prefixed_lookup(&models, "gpt-x"), Some(priced(4)));

    let models = catalog_of(&[
        ("GPT-X", priced(1)),
        ("azure/gpt-x", priced(2)),
        ("openrouter/openai/gpt-x", priced(5)),
    ]);
    assert_eq!(direct_or_prefixed_lookup(&models, "gpt-x"), Some(priced(2)));

    let models = catalog_of(&[("GPT-X", priced(1)), ("openrouter/openai/gpt-x", priced(5))]);
    assert_eq!(direct_or_prefixed_lookup(&models, "gpt-x"), Some(priced(5)));
}

#[test]
fn keys_match_whatever_the_case_of_their_letters() {
    for key in [
        "GPT-X",
        "openai/Gpt-X",
        "azure/GPT-x",
        "openrouter/openai/GPT-X",
    ] {
        let models = catalog_of(&[("other", priced(7)), (key, priced(1))]);
        assert_eq!(
            direct_or_prefixed_lookup(&models, "gpt-x"),
            Some(priced(1)),
            "{key}"
        );
    }
    let models = catalog_of(&[("OPENAI/gpt-x", priced(1)), ("gpt-xy", priced(2))]);
    assert_eq!(direct_or_prefixed_lookup(&models, "gpt-x"), None);
}

#[test]
fn an_entry_without_input_or_output_price_does_not_count() {
    let without_output = LiteLLMModelPricing {
        input_cost_per_token: Some(1),
        output_cost_per_token: None,
        cache_read_input_token_cost: Some(2),
    };
    let without_input = LiteLLMModelPricing {
        input_cost_per_token: None,
        output_cost_per_token: Some(1),
        cache_read_input_token_cost: Some(2),
    };
    assert_eq!(to_model_pricing(&without_output), None);
    assert_eq!(to_model_pricing(&without_input), None);
    assert_eq!(
        resolve_model_pricing(&catalog_of(&[("gpt-5", without_output)]), "gpt-5"),
        pricing_for_model("gpt-5")
    );
}

#[test]
fn cached_input_costs_as_much_as_other_input_where_no_price_is_given() {
    let pricing = to_model_pricing(&priced(3.0e-6_f64.to_bits())).expect("prices");

    assert_eq!(
        pricing.cached_input_cost_per_million,
        pricing.input_cost_per_million
    );
    assert_eq!(dollars(pricing.input_cost_per_million), 3.0);
}

#[test]
fn codex_models_go_by_the_prices_of_others() {
    assert_eq!(model_alias("gpt-5-codex"), Some("gpt-5"));
    assert_eq!(model_alias("gpt-5.3-codex"), Some("gpt-5.2-codex"));
    assert_eq!(model_alias("gpt-5.4-codex"), None);
    assert_eq!(
        resolve_model_pricing(&catalog_of(&[("openai/gpt-5", priced(9))]), "gpt-5-codex"),
        to_model_pricing(&priced(9)).expect("prices")
    );
}

#[test]
fn every_input_token_is_billed_once() {
    for (input, cached) in [(0, 0), (10, 3), (10, 10), (10, 11), (u64::MAX, 1)] {
        let tokens = billed_tokens(&Usage {
            input_tokens: input,
            cached_input_tokens: cached,
            output_tokens: 7,
            reasoning_output_tokens: 5,
            total_tokens: 0,
        });
        assert_eq!(tokens.input + tokens.cached_input, input);
        assert_eq!(tokens.cached_input, cached.min(input));
        assert_eq!(tokens.output, 7);
    }
}

fn fetched_at(fetched_unix_ms: u64) -> CachedPricingCatalog {
    CachedPricingCatalog {
        fetched_unix_ms,
        models: catalog_of(&[("gpt-x", priced(1))]),
    }
}

#[test]
fn a_catalog_is_up_to_date_for_a_day() {
    let now = 1_772_723_600_000;

    assert_eq!(PRICING_TTL_MS, 24 * 60 * 60 * 1_000);
    assert!(load_cached_catalog(Some(fetched_at(now)), now).is_some());
    assert!(load_cached_catalog(Some(fetched_at(now - PRICING_TTL_MS)), now).is_some());
    assert!(load_cached_catalog(Some(fetched_at(now - PRICING_TTL_MS - 1)), now).is_none());
    assert!(load_cached_catalog(Some(fetched_at(now + 1)), now).is_some());
    assert!(load_cached_catalog(None, now).is_none());
}

#[test]
fn a_stale_catalog_is_fetched_saved_and_used() {
    let now = 2 * PRICING_TTL_MS;

    assert!(matches!(
        PricingCatalog::load_at(LoadEvent::CacheRead(Some(fetched_at(0))), now),
        LoadAction::Fetch
    ));
    assert!(matches!(
        PricingCatalog::load_at(LoadEvent::CacheRead(None), now),
        LoadAction::Fetch
    ));
    assert!(matches!(
        PricingCatalog::load_at(LoadEvent::Fetched(Some(fetched_at(now))), now),
        LoadAction::Save(catalog) if catalog == fetched_at(now)
    ));
    assert!(matches!(
        PricingCatalog::load_at(LoadEvent::Saved(fetched_at(now)), now),
        LoadAction::Done(catalog) if catalog.models == fetched_at(now).models
    ));
}

#[test]
fn treats_corrupt_pricing_cache_as_missing() {
    assert!(load_cached_catalog_any_age(CatalogFile::Corrupt).is_none());
    assert!(load_cached_catalog_any_age(CatalogFile::Missing).is_none());
    assert_eq!(
        load_cached_catalog_any_age(CatalogFile::Catalog(fetched_at(0))),
        Some(fetched_at(0))
    );
}

#[test]
fn without_a_reply_the_old_catalog_is_used_and_the_cache_is_kept() {
    let now = 2 * PRICING_TTL_MS;

    assert!(matches!(
        PricingCatalog::load_at(LoadEvent::Fetched(None), now),
        LoadAction::ReadStale
    ));
    assert!(matches!(
        PricingCatalog::load_at(LoadEvent::StaleRead(Some(fetched_at(0))), now),
        LoadAction::Done(catalog) if catalog.models == fetched_at(0).models
    ));
    assert!(matches!(
        PricingCatalog::load_at(LoadEvent::StaleRead(None), now),
        LoadAction::Done(catalog) if catalog == PricingCatalog::default()
    ));
}
