//! Reports of parts put together.

use crate::report;
use crate::report::sums;
use crate::text_map;
use crate::text_map::TextMap;
use crate::types;
use crate::types::{ModelTotals, ReportRow, RowModel, TotalsModel, Usage};
use vstd::prelude::*;

verus! {

/// The totals of two parts.
pub open spec fn totals_sum(a: TotalsModel, b: TotalsModel) -> TotalsModel {
    TotalsModel { usage: a.usage.plus(b.usage), is_fallback: a.is_fallback || b.is_fallback }
}

/// The totals of a model, none where it has none.
pub open spec fn totals_in(models: Map<Seq<char>, TotalsModel>, model: Seq<char>) -> TotalsModel {
    if models.dom().contains(model) {
        models[model]
    } else {
        sums::no_totals()
    }
}

/// The totals of each model in two parts.
pub open spec fn models_sum(
    a: Map<Seq<char>, TotalsModel>,
    b: Map<Seq<char>, TotalsModel>,
) -> Map<Seq<char>, TotalsModel> {
    Map::new(
        |model: Seq<char>| a.dom().contains(model) || b.dom().contains(model),
        |model: Seq<char>| totals_sum(totals_in(a, model), totals_in(b, model)),
    )
}

/// The row of a period in two parts.
pub open spec fn row_sum(a: RowModel, b: RowModel) -> RowModel {
    RowModel {
        key: a.key,
        usage: a.usage.plus(b.usage),
        models: models_sum(a.models, b.models),
    }
}

/// The row of a period, empty where there is none.
pub open spec fn row_in(table: Map<Seq<char>, RowModel>, key: Seq<char>) -> RowModel {
    if table.dom().contains(key) {
        table[key]
    } else {
        report::empty_row(key)
    }
}

/// The table with one more row added to that of its period.
pub open spec fn merged_with(table: Map<Seq<char>, RowModel>, row: RowModel) -> Map<
    Seq<char>,
    RowModel,
> {
    table.insert(row.key, row_sum(row_in(table, row.key), row))
}

/// The rows by period: those of one period put together.
pub open spec fn merged(rows: Seq<RowModel>) -> Map<Seq<char>, RowModel>
    decreases rows.len(),
{
    if rows.len() == 0 {
        Map::empty()
    } else {
        merged_with(merged(rows.drop_last()), rows.last())
    }
}

/// Whether the counts of two rows add up within 64 bits.
pub open spec fn sum_fits(a: RowModel, b: RowModel) -> bool {
    &&& a.usage.plus(b.usage).fits()
    &&& forall|model: Seq<char>| #[trigger]
        b.models.dom().contains(model) ==> totals_in(a.models, model).usage.plus(
            b.models[model].usage,
        ).fits()
}

/// Whether the counts of rows add up within 64 bits, row after row.
pub open spec fn merge_fits(rows: Seq<RowModel>) -> bool {
    forall|n: int|
        0 <= n < rows.len() ==> sum_fits(
            row_in(merged(rows.take(n)), (#[trigger] rows[n]).key),
            rows[n],
        )
}

/// The rows of a list.
pub open spec fn row_list(rows: Seq<ReportRow>) -> Seq<RowModel> {
    rows.map_values(|row: ReportRow| row@)
}

/// The rows of all parts, part after part.
pub open spec fn all_rows(parts: Seq<Vec<ReportRow>>) -> Seq<RowModel>
    decreases parts.len(),
{
    if parts.len() == 0 {
        Seq::empty()
    } else {
        all_rows(parts.drop_last()) + row_list(parts.last()@)
    }
}

/// Adds the totals of each model to those that there are.
fn add_totals(models: &mut TextMap<ModelTotals>, more: &TextMap<ModelTotals>)
    requires
        forall|model: Seq<char>| #[trigger]
            more@.dom().contains(model) ==> totals_in(
                types::totals_by_model(old(models)@),
                model,
            ).usage.plus(more@[model].usage@).fits(),
    ensures
        types::totals_by_model(final(models)@) == models_sum(
            types::totals_by_model(old(models)@),
            types::totals_by_model(more@),
        ),
{
    let ghost before = types::totals_by_model(models@);
    let ghost added = types::totals_by_model(more@);
    let ghost entries = more.entries();
    let n = more.len();
    let mut i: usize = 0;
    while i < n
        invariant
            i <= n == entries.len(),
            entries == more.entries(),
            text_map::ordered(entries),
            added == types::totals_by_model(more@),
            forall|model: Seq<char>| #[trigger]
                more@.dom().contains(model) ==> totals_in(before, model).usage.plus(
                    more@[model].usage@,
                ).fits(),
            forall|model: Seq<char>| #[trigger]
                models@.dom().contains(model) <==> before.dom().contains(model)
                    || text_map::has_key(entries.take(i as int), model),
            forall|model: Seq<char>| #[trigger]
                models@.dom().contains(model) ==> models@[model]@ == if text_map::has_key(
                    entries.take(i as int),
                    model,
                ) {
                    totals_sum(totals_in(before, model), added[model])
                } else {
                    before[model]
                },
        decreases n - i,
    {
        let model = more.key_at(i);
        let totals = more.value_at(i);
        proof {
            text_map::lemma_entry_in_map(entries, i as int);
            if text_map::has_key(entries.take(i as int), model@) {
                let j = choose|j: int|
                    0 <= j < i && (#[trigger] entries.take(i as int)[j]).0 == model@;
                assert(entries[j].0 == model@);
                text_map::lemma_distinct_keys(entries, j, i as int);
            }
            assert forall|key: Seq<char>| #[trigger]
                text_map::has_key(entries.take(i + 1), key) <==> text_map::has_key(
                    entries.take(i as int),
                    key,
                ) || key == model@ by {
                if text_map::has_key(entries.take(i as int), key) {
                    let j = choose|j: int|
                        0 <= j < i && (#[trigger] entries.take(i as int)[j]).0 == key;
                    assert(entries.take(i + 1)[j].0 == key);
                }
                if key == model@ {
                    assert(entries.take(i + 1)[i as int].0 == key);
                }
                if text_map::has_key(entries.take(i + 1), key) {
                    let j = choose|j: int|
                        0 <= j < i + 1 && (#[trigger] entries.take(i + 1)[j]).0 == key;
                    if j < i {
                        assert(entries.take(i as int)[j].0 == key);
                    }
                }
            }
            assert(more@.dom().contains(model@));
        }
        let mut sum: ModelTotals = match models.get(model.as_str()) {
            Some(before) => *before,
            None => ModelTotals::default(),
        };
        sum.usage.add_assign(&totals.usage);
        sum.is_fallback = sum.is_fallback || totals.is_fallback;
        models.insert(model.clone(), sum);
        i = i + 1;
    }
    proof {
        assert(entries.take(i as int) =~= entries);
        assert(types::totals_by_model(models@) =~= models_sum(before, added));
    }
}

/// Adds a row to that of its period.
fn merge_row(table: &mut TextMap<ReportRow>, row: &ReportRow)
    requires
        sum_fits(row_in(report::row_models(old(table)@), row@.key), row@),
    ensures
        report::row_models(final(table)@) == merged_with(report::row_models(old(table)@), row@),
{
    let ghost before = report::row_models(table@);
    let mut sum: ReportRow = match table.remove(row.key.as_str()) {
        Some(sum) => sum,
        None => ReportRow { key: row.key.clone(), usage: Usage::default(), models: TextMap::new() },
    };
    proof {
        assert(types::totals_by_model(Map::<Seq<char>, ModelTotals>::empty()) =~= Map::empty());
        assert(sum@ == row_in(before, row@.key));
        assert forall|model: Seq<char>| #[trigger]
            row.models@.dom().contains(model) implies totals_in(
            types::totals_by_model(sum.models@),
            model,
        ).usage.plus(row.models@[model].usage@).fits() by {
            assert(row@.models.dom().contains(model));
        }
    }
    sum.usage.add_assign(&row.usage);
    add_totals(&mut sum.models, &row.models);
    table.insert(row.key.clone(), sum);
    proof {
        assert(report::row_models(table@) =~= merged_with(before, row@));
    }
}

proof fn lemma_all_rows_step(parts: Seq<Vec<ReportRow>>, i: int, j: int)
    requires
        0 <= i < parts.len(),
        0 <= j <= parts[i]@.len(),
    ensures
        all_rows(parts.take(i)).len() + parts[i]@.len() <= all_rows(parts).len(),
        all_rows(parts).take(all_rows(parts.take(i)).len() + j) == all_rows(parts.take(i))
            + row_list(parts[i]@).take(j),
        j < parts[i]@.len() ==> all_rows(parts)[all_rows(parts.take(i)).len() + j]
            == parts[i]@[j]@,
    decreases parts.len(),
{
    let last = parts.len() - 1;
    let shorter = parts.drop_last();
    if i < last {
        lemma_all_rows_step(shorter, i, j);
        assert(shorter.take(i) =~= parts.take(i));
        assert(all_rows(parts).take(all_rows(parts.take(i)).len() + j) =~= all_rows(shorter).take(
            all_rows(parts.take(i)).len() + j,
        ));
    } else {
        assert(parts.take(i) =~= shorter);
        assert(all_rows(parts).take(all_rows(shorter).len() + j) =~= all_rows(shorter) + row_list(
            parts[i]@,
        ).take(j));
    }
}

/// The reports of parts put together: a row for each period of any of them, in the order of the
/// periods.
pub fn merge_rows(parts: &[Vec<ReportRow>]) -> (rows: Vec<ReportRow>)
    requires
        merge_fits(all_rows(parts@)),
    ensures
        report::lists_table(rows@, merged(all_rows(parts@))),
{
    let ghost all = all_rows(parts@);
    let mut table: TextMap<ReportRow> = TextMap::new();
    proof {
        assert(report::row_models(table@) =~= Map::empty());
    }
    let mut i: usize = 0;
    while i < parts.len()
        invariant
            i <= parts@.len(),
            all == all_rows(parts@),
            merge_fits(all),
            report::row_models(table@) == merged(all_rows(parts@.take(i as int))),
        decreases parts@.len() - i,
    {
        let part = &parts[i];
        let ghost done = all_rows(parts@.take(i as int));
        proof {
            assert(done + row_list(part@).take(0) =~= done);
        }
        let mut j: usize = 0;
        while j < part.len()
            invariant
                i < parts@.len(),
                all == all_rows(parts@),
                part@ == parts@[i as int]@,
                done == all_rows(parts@.take(i as int)),
                merge_fits(all),
                j <= part@.len(),
                report::row_models(table@) == merged(done + row_list(part@).take(j as int)),
            decreases part@.len() - j,
        {
            let row = &part[j];
            proof {
                lemma_all_rows_step(parts@, i as int, j as int);
                assert(all[done.len() + j] == row@);
                assert((done + row_list(part@).take(j + 1)).drop_last() =~= done + row_list(
                    part@,
                ).take(j as int));
            }
            merge_row(&mut table, row);
            j = j + 1;
        }
        proof {
            assert(row_list(part@).take(j as int) =~= row_list(part@));
            assert(parts@.take(i + 1).drop_last() =~= parts@.take(i as int));
        }
        i = i + 1;
    }
    proof {
        assert(parts@.take(i as int) =~= parts@);
    }
    report::listed(table)
}

/// Whether a row adds up with that of its period within 64 bits.
fn can_merge_row(table: &TextMap<ReportRow>, row: &ReportRow) -> (fits: bool)
    ensures
        fits == sum_fits(row_in(report::row_models(table@), row@.key), row@),
{
    let ghost sum = row_in(report::row_models(table@), row@.key);
    let found = table.get(row.key.as_str());
    if let Some(found) = found {
        if !found.usage.can_add(&row.usage) {
            return false;
        }
    }
    let n = row.models.len();
    let ghost entries = row.models.entries();
    let mut i: usize = 0;
    while i < n
        invariant
            i <= n == entries.len(),
            entries == row.models.entries(),
            text_map::ordered(entries),
            sum == row_in(report::row_models(table@), row@.key),
            found is Some <==> table@.dom().contains(row@.key),
            found matches Some(found) ==> *found == table@[row@.key],
            forall|j: int|
                0 <= j < i ==> totals_in(sum.models, (#[trigger] entries[j]).0).usage.plus(
                    entries[j].1.usage@,
                ).fits(),
        decreases n - i,
    {
        if let Some(found) = found {
            let model = row.models.key_at(i);
            let totals = row.models.value_at(i);
            if let Some(before) = found.models.get(model.as_str()) {
                if !before.usage.can_add(&totals.usage) {
                    proof {
                        text_map::lemma_entry_in_map(entries, i as int);
                        assert(row@.models.dom().contains(model@));
                    }
                    return false;
                }
            }
        }
        i = i + 1;
    }
    proof {
        assert forall|model: Seq<char>| #[trigger]
            row@.models.dom().contains(model) implies totals_in(sum.models, model).usage.plus(
            row@.models[model].usage,
        ).fits() by {
            assert(text_map::has_key(entries, model));
            let k = text_map::key_index(entries, model);
            assert(entries[k].0 == model);
            text_map::lemma_entry_in_map(entries, k);
        }
    }
    true
}

proof fn lemma_merge_pushed(rows: Seq<RowModel>, row: RowModel)
    requires
        merge_fits(rows),
        sum_fits(row_in(merged(rows), row.key), row),
    ensures
        merge_fits(rows.push(row)),
{
    let more = rows.push(row);
    assert forall|n: int| 0 <= n < more.len() implies sum_fits(
        row_in(merged(more.take(n)), (#[trigger] more[n]).key),
        more[n],
    ) by {
        assert(more.take(n) =~= rows.take(n));
        if n < rows.len() {
            assert(more[n] == rows[n]);
        } else {
            assert(rows.take(n) =~= rows);
        }
    }
}

/// The reports of parts put together, where the counts add up within 64 bits.
pub fn try_merge_rows(parts: &[Vec<ReportRow>]) -> (rows: Option<Vec<ReportRow>>)
    ensures
        rows is Some <==> merge_fits(all_rows(parts@)),
        rows matches Some(rows) ==> report::lists_table(rows@, merged(all_rows(parts@))),
{
    let ghost all = all_rows(parts@);
    let mut table: TextMap<ReportRow> = TextMap::new();
    proof {
        assert(report::row_models(table@) =~= Map::empty());
    }
    let mut i: usize = 0;
    while i < parts.len()
        invariant
            i <= parts@.len(),
            all == all_rows(parts@),
            merge_fits(all_rows(parts@.take(i as int))),
            report::row_models(table@) == merged(all_rows(parts@.take(i as int))),
        decreases parts@.len() - i,
    {
        let part = &parts[i];
        let ghost done = all_rows(parts@.take(i as int));
        proof {
            assert(done + row_list(part@).take(0) =~= done);
        }
        let mut j: usize = 0;
        while j < part.len()
            invariant
                i < parts@.len(),
                all == all_rows(parts@),
                part@ == parts@[i as int]@,
                done == all_rows(parts@.take(i as int)),
                j <= part@.len(),
                merge_fits(done + row_list(part@).take(j as int)),
                report::row_models(table@) == merged(done + row_list(part@).take(j as int)),
            decreases part@.len() - j,
        {
            let row = &part[j];
            let ghost seen = done + row_list(part@).take(j as int);
            proof {
                lemma_all_rows_step(parts@, i as int, j as int);
                assert(all[done.len() + j] == row@);
                assert(done + row_list(part@).take(j + 1) =~= seen.push(row@));
                assert(seen.push(row@).drop_last() =~= seen);
            }
            if !can_merge_row(&table, row) {
                return None;
            }
            proof {
                lemma_merge_pushed(seen, row@);
            }
            merge_row(&mut table, row);
            j = j + 1;
        }
        proof {
            assert(row_list(part@).take(j as int) =~= row_list(part@));
            assert(parts@.take(i + 1).drop_last() =~= parts@.take(i as int));
        }
        i = i + 1;
    }
    proof {
        assert(parts@.take(i as int) =~= parts@);
    }
    Some(report::listed(table))
}

} // verus!
