//! What the rows of parts put together tell.

use crate::report;
use crate::report::merge;
use crate::text;
use crate::types;
use crate::types::{ReportRow, RowModel, TokenCounts};
use vstd::prelude::*;

verus! {

/// What is taken of a row, if anything is.
pub type Pick = spec_fn(RowModel) -> Option<TokenCounts>;

/// The sum of what is taken of rows, count by count.
pub open spec fn sum_of(rows: Seq<RowModel>, pick: Pick) -> TokenCounts
    decreases rows.len(),
{
    if rows.len() == 0 {
        TokenCounts { input: 0, cached_input: 0, output: 0, reasoning_output: 0, total: 0 }
    } else {
        let before = sum_of(rows.drop_last(), pick);
        match pick(rows.last()) {
            Some(counts) => TokenCounts {
                input: before.input + counts.input,
                cached_input: before.cached_input + counts.cached_input,
                output: before.output + counts.output,
                reasoning_output: before.reasoning_output + counts.reasoning_output,
                total: before.total + counts.total,
            },
            None => before,
        }
    }
}

/// The usage of the rows of a key.
pub open spec fn of_key(key: Seq<char>) -> Pick {
    |row: RowModel|
        if row.key == key {
            Some(row.usage)
        } else {
            None
        }
}

/// The usage of a model in the rows of a key.
pub open spec fn of_model(key: Seq<char>, model: Seq<char>) -> Pick {
    |row: RowModel|
        if row.key == key && row.models.dom().contains(model) {
            Some(row.models[model].usage)
        } else {
            None
        }
}

/// Whether any row of a key tells of a model.
pub open spec fn any_tells_of(rows: Seq<RowModel>, key: Seq<char>, model: Seq<char>) -> bool {
    exists|n: int|
        0 <= n < rows.len() && (#[trigger] rows[n]).key == key && rows[n].models.dom().contains(
            model,
        )
}

/// Whether any row of a key tells of a model that was assumed.
pub open spec fn any_assumes(rows: Seq<RowModel>, key: Seq<char>, model: Seq<char>) -> bool {
    exists|n: int|
        0 <= n < rows.len() && (#[trigger] rows[n]).key == key && rows[n].models.dom().contains(
            model,
        ) && rows[n].models[model].is_fallback
}

/// Whether any row is of a key.
pub open spec fn any_is_of(rows: Seq<RowModel>, key: Seq<char>) -> bool {
    exists|n: int| 0 <= n < rows.len() && (#[trigger] rows[n]).key == key
}

proof fn lemma_any_of_more(rows: Seq<RowModel>, key: Seq<char>, model: Seq<char>)
    requires
        rows.len() > 0,
    ensures
        any_is_of(rows, key) <==> any_is_of(rows.drop_last(), key) || rows.last().key == key,
        any_tells_of(rows, key, model) <==> any_tells_of(rows.drop_last(), key, model)
            || rows.last().key == key && rows.last().models.dom().contains(model),
        any_assumes(rows, key, model) <==> any_assumes(rows.drop_last(), key, model)
            || rows.last().key == key && rows.last().models.dom().contains(model)
            && rows.last().models[model].is_fallback,
{
    let fewer = rows.drop_last();
    let last = rows.len() - 1;
    assert(rows[last] == rows.last());
    assert forall|n: int| 0 <= n < fewer.len() implies #[trigger] fewer[n] == rows[n] by {}
    if any_is_of(fewer, key) {
        let n = choose|n: int| 0 <= n < fewer.len() && (#[trigger] fewer[n]).key == key;
        assert(rows[n].key == key);
    }
    if any_is_of(rows, key) && rows.last().key != key {
        let n = choose|n: int| 0 <= n < rows.len() && (#[trigger] rows[n]).key == key;
        assert(fewer[n].key == key);
    }
    if any_tells_of(fewer, key, model) {
        let n = choose|n: int|
            0 <= n < fewer.len() && (#[trigger] fewer[n]).key == key
                && fewer[n].models.dom().contains(model);
        assert(rows[n].key == key);
    }
    if any_tells_of(rows, key, model) {
        let n = choose|n: int|
            0 <= n < rows.len() && (#[trigger] rows[n]).key == key && rows[n].models.dom().contains(
                model,
            );
        if n < last {
            assert(fewer[n].key == key);
        }
    }
    if any_assumes(fewer, key, model) {
        let n = choose|n: int|
            0 <= n < fewer.len() && (#[trigger] fewer[n]).key == key
                && fewer[n].models.dom().contains(model) && fewer[n].models[model].is_fallback;
        assert(rows[n].key == key);
    }
    if any_assumes(rows, key, model) {
        let n = choose|n: int|
            0 <= n < rows.len() && (#[trigger] rows[n]).key == key && rows[n].models.dom().contains(
                model,
            ) && rows[n].models[model].is_fallback;
        if n < last {
            assert(fewer[n].key == key);
        }
    }
}

proof fn lemma_merged_tells(rows: Seq<RowModel>, key: Seq<char>, model: Seq<char>)
    ensures
        ({
            let table = merge::merged(rows);
            let row = merge::row_in(table, key);
            &&& table.dom().contains(key) <==> any_is_of(rows, key)
            &&& row.key == key
            &&& row.usage == sum_of(rows, of_key(key))
            &&& row.models.dom().contains(model) <==> any_tells_of(rows, key, model)
            &&& merge::totals_in(row.models, model).usage == sum_of(rows, of_model(key, model))
            &&& merge::totals_in(row.models, model).is_fallback == any_assumes(rows, key, model)
        }),
    decreases rows.len(),
{
    if rows.len() > 0 {
        lemma_merged_tells(rows.drop_last(), key, model);
        lemma_any_of_more(rows, key, model);
    }
}

/// The rows of parts, one part after the other, each in its own order.
pub proof fn lemma_rows_of_parts(parts: Seq<Vec<ReportRow>>, part: Vec<ReportRow>)
    ensures
        merge::all_rows(Seq::empty()).len() == 0,
        merge::all_rows(parts.push(part)).len() == merge::all_rows(parts).len() + part@.len(),
        forall|i: int|
            0 <= i < merge::all_rows(parts).len() ==> merge::all_rows(parts.push(part))[i]
                == #[trigger] merge::all_rows(parts)[i],
        forall|i: int|
            0 <= i < part@.len() ==> merge::all_rows(
                parts.push(part),
            )[merge::all_rows(parts).len() + i] == (#[trigger] part@[i])@,
{
    assert(parts.push(part).drop_last() =~= parts);
}

/// Whether rows are the parts put together.
pub open spec fn is_merge(rows: Vec<ReportRow>, parts: &[Vec<ReportRow>]) -> bool {
    ||| call_ensures(merge::merge_rows, (parts,), rows)
    ||| call_ensures(merge::try_merge_rows, (parts,), Some(rows))
}

/// Whether a row tells of all rows of its key, in all and by model.
pub open spec fn tells_of_all(row: ReportRow, all: Seq<RowModel>) -> bool {
    let key = row.key@;
    &&& any_is_of(all, key)
    &&& row.usage.input_tokens == sum_of(all, of_key(key)).input
    &&& row.usage.cached_input_tokens == sum_of(all, of_key(key)).cached_input
    &&& row.usage.output_tokens == sum_of(all, of_key(key)).output
    &&& row.usage.reasoning_output_tokens == sum_of(all, of_key(key)).reasoning_output
    &&& row.usage.total_tokens == sum_of(all, of_key(key)).total
    &&& forall|model: Seq<char>| #![trigger row.models@.dom().contains(model)]
        {
            &&& row.models@.dom().contains(model) <==> any_tells_of(all, key, model)
            &&& row.models@.dom().contains(model) ==> {
                let usage = row.models@[model].usage;
                let counts = sum_of(all, of_model(key, model));
                &&& usage.input_tokens == counts.input
                &&& usage.cached_input_tokens == counts.cached_input
                &&& usage.output_tokens == counts.output
                &&& usage.reasoning_output_tokens == counts.reasoning_output
                &&& usage.total_tokens == counts.total
                &&& row.models@[model].is_fallback == any_assumes(all, key, model)
            }
        }
}

/// Parts put together have one row for each key that a row of theirs has, in the order of the keys;
/// it tells of all rows of the key, in all and by model.
pub proof fn lemma_parts_put_together(parts: &[Vec<ReportRow>], rows: Vec<ReportRow>)
    requires
        is_merge(rows, parts),
    ensures
        forall|i: int, j: int|
            0 <= i < j < rows@.len() ==> text::precedes(
                (#[trigger] rows@[i]).key@,
                (#[trigger] rows@[j]).key@,
            ),
        forall|n: int|
            0 <= n < merge::all_rows(parts@).len() ==> exists|i: int|
                0 <= i < rows@.len() && (#[trigger] rows@[i]).key@ == (
                #[trigger] merge::all_rows(parts@)[n]).key,
        forall|i: int|
            0 <= i < rows@.len() ==> tells_of_all(#[trigger] rows@[i], merge::all_rows(parts@)),
{
    let all = merge::all_rows(parts@);
    let table = merge::merged(all);
    let keys = choose|keys: Seq<Seq<char>>| report::lists(rows@, table, keys);
    assert forall|i: int| 0 <= i < rows@.len() implies (#[trigger] rows@[i]).key@ == keys[i]
        && table.dom().contains(keys[i]) by {
        assert(rows@[i]@ == table[keys[i]]);
        assert(keys.contains(keys[i]));
        lemma_merged_tells(all, keys[i], keys[i]);
    }
    assert forall|i: int, j: int| 0 <= i < j < rows@.len() implies text::precedes(
        (#[trigger] rows@[i]).key@,
        (#[trigger] rows@[j]).key@,
    ) by {
        assert(text::precedes(keys[i], keys[j]));
    }
    assert forall|n: int| 0 <= n < all.len() implies exists|i: int|
        0 <= i < rows@.len() && (#[trigger] rows@[i]).key@ == (#[trigger] all[n]).key by {
        lemma_merged_tells(all, all[n].key, all[n].key);
        assert(table.dom().contains(all[n].key));
        assert(keys.contains(all[n].key));
        let i = choose|i: int| 0 <= i < keys.len() && keys[i] == all[n].key;
        assert(rows@[i].key@ == all[n].key);
    }
    assert forall|i: int| 0 <= i < rows@.len() implies tells_of_all(
        #[trigger] rows@[i],
        all,
    ) by {
        let row = rows@[i];
        assert(row@ == table[keys[i]]);
        lemma_merged_tells(all, keys[i], keys[i]);
        assert forall|model: Seq<char>| #![trigger row.models@.dom().contains(model)]
            {
                &&& row.models@.dom().contains(model) <==> any_tells_of(all, keys[i], model)
                &&& row.models@.dom().contains(model) ==> {
                    let usage = row.models@[model].usage;
                    let counts = sum_of(all, of_model(keys[i], model));
                    &&& usage.input_tokens == counts.input
                    &&& usage.cached_input_tokens == counts.cached_input
                    &&& usage.output_tokens == counts.output
                    &&& usage.reasoning_output_tokens == counts.reasoning_output
                    &&& usage.total_tokens == counts.total
                    &&& row.models@[model].is_fallback == any_assumes(all, keys[i], model)
                }
            } by {
            lemma_merged_tells(all, keys[i], model);
            assert(row.models@.dom().contains(model) == types::totals_by_model(
                row.models@,
            ).dom().contains(model));
            if row.models@.dom().contains(model) {
                assert(row@.models[model] == row.models@[model]@);
            }
        }
    }
}

/// Whether every sum over the rows of a key, in all and by model, is a number of 64 bits.
pub open spec fn key_fits(all: Seq<RowModel>, key: Seq<char>) -> bool {
    &&& counts_fit(sum_of(all, of_key(key)))
    &&& forall|model: Seq<char>| counts_fit(#[trigger] sum_of(all, of_model(key, model)))
}

/// Whether every count is a number of 64 bits.
pub open spec fn counts_fit(counts: TokenCounts) -> bool {
    counts.input <= u64::MAX && counts.cached_input <= u64::MAX && counts.output <= u64::MAX
        && counts.reasoning_output <= u64::MAX && counts.total <= u64::MAX
}

proof fn lemma_sum_grows(rows: Seq<RowModel>, n: int, pick: Pick)
    requires
        0 <= n <= rows.len(),
    ensures
        sum_of(rows.take(n), pick).within(sum_of(rows, pick)),
    decreases rows.len() - n,
{
    if n < rows.len() {
        lemma_sum_grows(rows, n + 1, pick);
        assert(rows.take(n + 1).drop_last() =~= rows.take(n));
    } else {
        assert(rows.take(n) =~= rows);
    }
}

proof fn lemma_step_fits(all: Seq<RowModel>, n: int)
    requires
        0 <= n < all.len(),
        key_fits(all, all[n].key),
    ensures
        merge::sum_fits(merge::row_in(merge::merged(all.take(n)), all[n].key), all[n]),
{
    let key = all[n].key;
    let row = merge::row_in(merge::merged(all.take(n)), key);
    let more = all.take(n + 1);
    assert(more.drop_last() =~= all.take(n));
    assert(more.last() == all[n]);
    lemma_merged_tells(all.take(n), key, key);
    lemma_sum_grows(all, n + 1, of_key(key));
    assert(sum_of(more, of_key(key)) == row.usage.plus(all[n].usage));
    assert forall|model: Seq<char>| #[trigger]
        all[n].models.dom().contains(model) implies merge::totals_in(row.models, model).usage.plus(
        all[n].models[model].usage,
    ).fits() by {
        lemma_merged_tells(all.take(n), key, model);
        lemma_sum_grows(all, n + 1, of_model(key, model));
        assert(counts_fit(sum_of(all, of_model(key, model))));
    }
}

/// Parts can be put together exactly where every sum of every row is a number of 64 bits.
pub proof fn lemma_parts_that_can_be_put_together(
    parts: &[Vec<ReportRow>],
    rows: Option<Vec<ReportRow>>,
)
    requires
        call_ensures(merge::try_merge_rows, (parts,), rows),
    ensures
        rows is Some <==> forall|n: int|
            0 <= n < merge::all_rows(parts@).len() ==> key_fits(
                merge::all_rows(parts@),
                (#[trigger] merge::all_rows(parts@)[n]).key,
            ),
{
    let all = merge::all_rows(parts@);
    if forall|n: int| 0 <= n < all.len() ==> key_fits(all, (#[trigger] all[n]).key) {
        assert forall|n: int| 0 <= n < all.len() implies merge::sum_fits(
            merge::row_in(merge::merged(all.take(n)), (#[trigger] all[n]).key),
            all[n],
        ) by {
            lemma_step_fits(all, n);
        }
    }
    if let Some(found) = rows {
        lemma_parts_put_together(parts, found);
        assert forall|n: int| 0 <= n < all.len() implies key_fits(
            all,
            (#[trigger] all[n]).key,
        ) by {
            let i = choose|i: int|
                0 <= i < found@.len() && (#[trigger] found@[i]).key@ == all[n].key;
            let row = found@[i];
            assert(tells_of_all(row, all));
            assert forall|model: Seq<char>| counts_fit(
                #[trigger] sum_of(all, of_model(all[n].key, model)),
            ) by {
                if !row.models@.dom().contains(model) {
                    lemma_nothing_of_model(all, all[n].key, model);
                }
            }
        }
    }
}

proof fn lemma_nothing_of_model(rows: Seq<RowModel>, key: Seq<char>, model: Seq<char>)
    requires
        !any_tells_of(rows, key, model),
    ensures
        counts_fit(sum_of(rows, of_model(key, model))),
        sum_of(rows, of_model(key, model)).within(TokenCounts::zero()),
    decreases rows.len(),
{
    if rows.len() > 0 {
        lemma_any_of_more(rows, key, model);
        lemma_nothing_of_model(rows.drop_last(), key, model);
    }
}

} // verus!
