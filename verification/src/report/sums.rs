//! Sums over lists of events.

use crate::text_map::TextMap;
use crate::types;
use crate::types::{EventModel, ModelTotals, TokenCounts, TotalsModel, UsageEvent};
use vstd::prelude::*;

verus! {

/// Which of a list of events are meant.
pub type EventTest = spec_fn(EventModel) -> bool;

/// The usage of the events that are meant.
pub open spec fn usage_where(events: Seq<EventModel>, keep: EventTest) -> TokenCounts
    decreases events.len(),
{
    if events.len() == 0 {
        TokenCounts::zero()
    } else {
        let before = usage_where(events.drop_last(), keep);
        if keep(events.last()) {
            before.plus(events.last().usage@)
        } else {
            before
        }
    }
}

/// All events.
pub open spec fn every() -> EventTest {
    |event: EventModel| true
}

/// The usage of all events.
pub open spec fn all_usage(events: Seq<EventModel>) -> TokenCounts {
    usage_where(events, every())
}

/// Whether any of the events is meant.
pub open spec fn any_where(events: Seq<EventModel>, keep: EventTest) -> bool {
    exists|i: int| 0 <= i < events.len() && keep(#[trigger] events[i])
}

/// Whether the model was assumed for any of the events that are meant.
pub open spec fn fallback_where(events: Seq<EventModel>, keep: EventTest) -> bool {
    exists|i: int|
        0 <= i < events.len() && keep(#[trigger] events[i]) && events[i].is_fallback_model
}

/// The first of the events that are meant.
pub open spec fn first_where(events: Seq<EventModel>, keep: EventTest) -> EventModel
    decreases events.len(),
{
    if events.len() > 1 && any_where(events.drop_last(), keep) {
        first_where(events.drop_last(), keep)
    } else {
        events.last()
    }
}

/// The latest instant of the events that are meant.
pub open spec fn latest_where(events: Seq<EventModel>, keep: EventTest) -> Option<i64>
    decreases events.len(),
{
    if events.len() == 0 {
        None
    } else {
        let before = latest_where(events.drop_last(), keep);
        let instant = events.last().timestamp_unix_ms;
        if keep(events.last()) && (before is None || instant > before->0) {
            Some(instant)
        } else {
            before
        }
    }
}

/// The events of a model among those that are meant.
pub open spec fn of_model(keep: EventTest, model: Seq<char>) -> EventTest {
    |event: EventModel| keep(event) && event.model == model
}

/// The totals of each model over the events that are meant: what it used, and whether it was
/// assumed for any of it.
pub open spec fn models_where(events: Seq<EventModel>, keep: EventTest) -> Map<
    Seq<char>,
    TotalsModel,
> {
    Map::new(
        |model: Seq<char>| any_where(events, of_model(keep, model)),
        |model: Seq<char>|
            TotalsModel {
                usage: usage_where(events, of_model(keep, model)),
                is_fallback: fallback_where(events, of_model(keep, model)),
            },
    )
}

/// The totals of no usage.
pub open spec fn no_totals() -> TotalsModel {
    TotalsModel { usage: TokenCounts::zero(), is_fallback: false }
}

/// The totals of a model with an event.
pub open spec fn totals_with(totals: TotalsModel, event: EventModel) -> TotalsModel {
    TotalsModel {
        usage: totals.usage.plus(event.usage@),
        is_fallback: totals.is_fallback || event.is_fallback_model,
    }
}

/// The totals of each model with an event.
pub open spec fn models_with(
    models: Map<Seq<char>, TotalsModel>,
    event: EventModel,
) -> Map<Seq<char>, TotalsModel> {
    let before = if models.dom().contains(event.model) {
        models[event.model]
    } else {
        no_totals()
    };
    models.insert(event.model, totals_with(before, event))
}

/// Adds an event to the totals of its model.
pub(crate) fn add_to_models(models: &mut TextMap<ModelTotals>, event: &UsageEvent)
    requires
        old(models)@.dom().contains(event.model@) ==> old(models)@[event.model@].usage@.plus(
            event.usage@,
        ).fits(),
    ensures
        types::totals_by_model(final(models)@) == models_with(
            types::totals_by_model(old(models)@),
            event@,
        ),
{
    let ghost before = types::totals_by_model(models@);
    let mut totals: ModelTotals = match models.get(event.model.as_str()) {
        Some(totals) => *totals,
        None => ModelTotals::default(),
    };
    totals.usage.add_assign(&event.usage);
    totals.is_fallback = totals.is_fallback || event.is_fallback_model;
    models.insert(event.model.clone(), totals);
    proof {
        assert(types::totals_by_model(models@) =~= models_with(before, event@));
    }
}

/// What one more event changes about whether any is meant.
pub(crate) proof fn lemma_any_pushed(events: Seq<EventModel>, event: EventModel, keep: EventTest)
    ensures
        any_where(events.push(event), keep) == (any_where(events, keep) || keep(event)),
        fallback_where(events.push(event), keep) == (fallback_where(events, keep) || (keep(event)
            && event.is_fallback_model)),
{
    let longer = events.push(event);
    if any_where(events, keep) {
        let i = choose|i: int| 0 <= i < events.len() && keep(#[trigger] events[i]);
        assert(longer[i] == events[i]);
    }
    if fallback_where(events, keep) {
        let i = choose|i: int|
            0 <= i < events.len() && keep(#[trigger] events[i]) && events[i].is_fallback_model;
        assert(longer[i] == events[i]);
    }
    assert(longer[events.len() as int] == event);
}

/// What one more event adds to the usage.
pub(crate) proof fn lemma_usage_pushed(events: Seq<EventModel>, event: EventModel, keep: EventTest)
    ensures
        usage_where(events.push(event), keep) == if keep(event) {
            usage_where(events, keep).plus(event.usage@)
        } else {
            usage_where(events, keep)
        },
{
    assert(events.push(event).drop_last() =~= events);
}

/// Where no event is meant, nothing is used.
pub(crate) proof fn lemma_none_used(events: Seq<EventModel>, keep: EventTest)
    requires
        !any_where(events, keep),
    ensures
        usage_where(events, keep) == TokenCounts::zero(),
        !fallback_where(events, keep),
    decreases events.len(),
{
    if events.len() > 0 {
        let shorter = events.drop_last();
        assert(events =~= shorter.push(events.last()));
        lemma_any_pushed(shorter, events.last(), keep);
        lemma_none_used(shorter, keep);
    }
}

/// What one more event changes about the totals of models.
pub(crate) proof fn lemma_models_pushed(events: Seq<EventModel>, event: EventModel, keep: EventTest)
    ensures
        models_where(events.push(event), keep) == if keep(event) {
            models_with(models_where(events, keep), event)
        } else {
            models_where(events, keep)
        },
{
    let longer = events.push(event);
    let before = models_where(events, keep);
    let after = models_where(longer, keep);
    assert forall|model: Seq<char>|
        #![trigger after.dom().contains(model)]
        #![trigger after[model]]
        ({
            let here = keep(event) && event.model == model;
            let its = of_model(keep, model);
            &&& after.dom().contains(model) == (before.dom().contains(model) || here)
            &&& after.dom().contains(model) ==> after[model].usage == (if here {
                usage_where(events, its).plus(event.usage@)
            } else {
                usage_where(events, its)
            })
            &&& after.dom().contains(model) ==> after[model].is_fallback == (fallback_where(
                events,
                its,
            ) || (here && event.is_fallback_model))
        }) by {
        lemma_any_pushed(events, event, of_model(keep, model));
        lemma_usage_pushed(events, event, of_model(keep, model));
    }
    if keep(event) {
        if !before.dom().contains(event.model) {
            lemma_none_used(events, of_model(keep, event.model));
        }
        assert(after =~= models_with(before, event));
    } else {
        assert(after =~= before);
    }
}

/// A stricter test means no more usage.
pub(crate) proof fn lemma_usage_within(events: Seq<EventModel>, some: EventTest, more: EventTest)
    requires
        forall|event: EventModel| #[trigger] some(event) ==> more(event),
    ensures
        usage_where(events, some).within(usage_where(events, more)),
    decreases events.len(),
{
    if events.len() > 0 {
        lemma_usage_within(events.drop_last(), some, more);
    }
}

/// The first events use no more than all.
pub(crate) proof fn lemma_usage_grows(events: Seq<EventModel>, n: int, keep: EventTest)
    requires
        0 <= n <= events.len(),
    ensures
        usage_where(events.take(n), keep).within(usage_where(events, keep)),
    decreases events.len() - n,
{
    if n < events.len() {
        lemma_usage_grows(events, n + 1, keep);
        assert(events.take(n + 1) =~= events.take(n).push(events[n]));
        lemma_usage_pushed(events.take(n), events[n], keep);
    } else {
        assert(events.take(n) =~= events);
    }
}

} // verus!
