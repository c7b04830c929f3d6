//! Catalogs of prices: where they come from, and when they are out of date.

use crate::text_map::TextMap;
use vstd::prelude::*;

verus! {

/// How long a fetched catalog is up to date, in milliseconds: a day.
pub const PRICING_TTL_MS: u64 = 86_400_000;

/// The prices of a model per token, as a catalog gives them: each the bits of a binary fraction of
/// 64 bits, in dollars, and each of which may be missing.
#[derive(Debug, Clone, Copy, PartialEq, Eq, Structural)]
pub struct LiteLLMModelPricing {
    pub input_cost_per_token: Option<u64>,
    pub output_cost_per_token: Option<u64>,
    pub cache_read_input_token_cost: Option<u64>,
}

/// A catalog and when it was fetched.
#[derive(Debug, Clone, PartialEq, Eq)]
pub struct CachedPricingCatalog {
    pub fetched_unix_ms: u64,
    pub models: TextMap<LiteLLMModelPricing>,
}

/// The prices of models by their names.
#[derive(Debug, Clone, PartialEq, Eq)]
pub struct PricingCatalog {
    pub models: TextMap<LiteLLMModelPricing>,
}

impl Default for PricingCatalog {
    fn default() -> (catalog: PricingCatalog)
        ensures
            catalog.models@ == Map::<Seq<char>, LiteLLMModelPricing>::empty(),
    {
        PricingCatalog { models: TextMap::new() }
    }
}

/// The file of a cached catalog as it was found.
pub enum CatalogFile {
    /// There is no file.
    Missing,
    /// There is a file that does not hold a catalog.
    Corrupt,
    /// The catalog that the file holds.
    Catalog(CachedPricingCatalog),
}

/// The cached catalog, of any age; a file that is corrupt counts as missing.
pub fn load_cached_catalog_any_age(file: CatalogFile) -> (cached: Option<CachedPricingCatalog>)
    ensures
        cached == match file {
            CatalogFile::Catalog(catalog) => Some(catalog),
            CatalogFile::Corrupt => None,
            CatalogFile::Missing => None,
        },
{
    match file {
        CatalogFile::Catalog(catalog) => Some(catalog),
        CatalogFile::Corrupt => None,
        CatalogFile::Missing => None,
    }
}

/// Whether a catalog is still up to date. One that was fetched later than now is.
pub open spec fn is_fresh(catalog: CachedPricingCatalog, now_unix_ms: u64) -> bool {
    now_unix_ms - catalog.fetched_unix_ms <= PRICING_TTL_MS
}

/// The cached catalog, where there is one that is up to date.
pub fn load_cached_catalog(cached: Option<CachedPricingCatalog>, now_unix_ms: u64) -> (fresh:
    Option<CachedPricingCatalog>)
    ensures
        fresh == match cached {
            Some(catalog) if is_fresh(catalog, now_unix_ms) => cached,
            _ => None,
        },
{
    match cached {
        Some(catalog) => {
            let age_ms: u64 = now_unix_ms.saturating_sub(catalog.fetched_unix_ms);
            if age_ms > PRICING_TTL_MS {
                None
            } else {
                Some(catalog)
            }
        },
        None => None,
    }
}

/// What happened while a catalog is being loaded.
pub enum LoadEvent {
    /// The cache was read: the catalog in it, if it holds one.
    CacheRead(Option<CachedPricingCatalog>),
    /// The catalog was asked for: what came back, if anything did.
    Fetched(Option<CachedPricingCatalog>),
    /// A fetched catalog was written to the cache.
    Saved(CachedPricingCatalog),
    /// The cache was read after nothing came back: the catalog in it, if it holds one.
    StaleRead(Option<CachedPricingCatalog>),
}

/// What is to be done next.
pub enum LoadAction {
    /// Ask for the catalog.
    Fetch,
    /// Write a fetched catalog to the cache.
    Save(CachedPricingCatalog),
    /// Read the cache, however old it is.
    ReadStale,
    /// Nothing more: this is the catalog.
    Done(PricingCatalog),
}

/// Whether this is the action that an event calls for: a cached catalog is used while it is up to
/// date; else one is fetched, and saved before it is used; where none can be fetched, the cached one
/// is used whatever its age, and without one a catalog of no prices.
pub open spec fn follows(event: LoadEvent, now_unix_ms: u64, action: LoadAction) -> bool {
    match event {
        LoadEvent::CacheRead(Some(cached)) => if is_fresh(cached, now_unix_ms) {
            action matches LoadAction::Done(catalog) && catalog.models == cached.models
        } else {
            action is Fetch
        },
        LoadEvent::CacheRead(None) => action is Fetch,
        LoadEvent::Fetched(Some(fetched)) => action == LoadAction::Save(fetched),
        LoadEvent::Fetched(None) => action is ReadStale,
        LoadEvent::Saved(fetched) => action matches LoadAction::Done(catalog) && catalog.models
            == fetched.models,
        LoadEvent::StaleRead(Some(cached)) => action matches LoadAction::Done(catalog)
            && catalog.models == cached.models,
        LoadEvent::StaleRead(None) => action matches LoadAction::Done(catalog)
            && catalog.models@ == Map::<Seq<char>, LiteLLMModelPricing>::empty(),
    }
}

impl PricingCatalog {
    /// What is to be done next to load a catalog.
    pub fn load_at(event: LoadEvent, now_unix_ms: u64) -> (action: LoadAction)
        ensures
            follows(event, now_unix_ms, action),
    {
        match event {
            LoadEvent::CacheRead(cached) => match load_cached_catalog(cached, now_unix_ms) {
                Some(cached) => LoadAction::Done(PricingCatalog { models: cached.models }),
                None => LoadAction::Fetch,
            },
            LoadEvent::Fetched(fetched) => match fetched {
                Some(fetched) => LoadAction::Save(fetched),
                None => LoadAction::ReadStale,
            },
            LoadEvent::Saved(fetched) => LoadAction::Done(
                PricingCatalog { models: fetched.models },
            ),
            LoadEvent::StaleRead(cached) => match cached {
                Some(cached) => LoadAction::Done(PricingCatalog { models: cached.models }),
                None => LoadAction::Done(PricingCatalog::default()),
            },
        }
    }
}

/// The cache is only ever overwritten by a catalog that was fetched.
pub proof fn lemma_saves_only_what_was_fetched(
    event: LoadEvent,
    now_unix_ms: u64,
    action: LoadAction,
)
    requires
        follows(event, now_unix_ms, action),
        action is Save,
    ensures
        action matches LoadAction::Save(catalog) && event == LoadEvent::Fetched(Some(catalog)),
{
}

/// While the cached catalog is up to date, none is asked for.
pub proof fn lemma_fresh_catalog_is_not_fetched(
    cached: CachedPricingCatalog,
    now_unix_ms: u64,
    action: LoadAction,
)
    requires
        is_fresh(cached, now_unix_ms),
        follows(LoadEvent::CacheRead(Some(cached)), now_unix_ms, action),
    ensures
        action matches LoadAction::Done(catalog) && catalog.models == cached.models,
{
}

} // verus!
