//! A price table and its ordered retrieval.
//!
//! A table holds its rows in the order in which they were inserted. The series
//! of an instrument is read out of it in ascending order of date; rows of the
//! same date keep the order of their insertion.

use crate::model::{Price, StockPrice};
use vstd::prelude::*;

verus! {

/// Whether `rows` is in ascending order of date.
pub open spec fn ascending(rows: Seq<StockPrice>) -> bool {
    forall|i: int, j: int| 0 <= i < j < rows.len() ==> rows[i].dt.day() <= rows[j].dt.day()
}

/// `sorted` with `row` put in behind the last row that is not later than it.
pub open spec fn insert_by_date(sorted: Seq<StockPrice>, row: StockPrice) -> Seq<StockPrice>
    decreases sorted.len(),
{
    if sorted.len() == 0 {
        seq![row]
    } else if row.dt.day() < sorted[0].dt.day() {
        seq![row] + sorted
    } else {
        seq![sorted[0]] + insert_by_date(sorted.drop_first(), row)
    }
}

/// The series of instrument `stock_id` in a table: its rows, in ascending order
/// of date.
pub open spec fn series_of(table: Seq<StockPrice>, stock_id: i32) -> Seq<StockPrice>
    decreases table.len(),
{
    if table.len() == 0 {
        Seq::empty()
    } else if table.last().stock_id == stock_id {
        insert_by_date(series_of(table.drop_last(), stock_id), table.last())
    } else {
        series_of(table.drop_last(), stock_id)
    }
}

/// The number of rows of instrument `stock_id` in a table.
pub open spec fn count_of(table: Seq<StockPrice>, stock_id: i32) -> nat
    decreases table.len(),
{
    if table.len() == 0 {
        0
    } else if table.last().stock_id == stock_id {
        count_of(table.drop_last(), stock_id) + 1
    } else {
        count_of(table.drop_last(), stock_id)
    }
}

/// The served form of a series.
pub open spec fn prices_of(series: Seq<StockPrice>) -> Seq<Price> {
    series.map_values(|row: StockPrice| Price::of_row(row))
}

/// Putting a row in at position `at` is `insert_by_date`, where every row in
/// front of `at` is not later than the row and the row at `at`, if any, is later.
pub proof fn lemma_insert_position(sorted: Seq<StockPrice>, row: StockPrice, at: int)
    requires
        0 <= at <= sorted.len(),
        forall|k: int| 0 <= k < at ==> (#[trigger] sorted[k]).dt.day() <= row.dt.day(),
        at < sorted.len() ==> row.dt.day() < sorted[at].dt.day(),
    ensures
        insert_by_date(sorted, row) == sorted.insert(at, row),
    decreases sorted.len(),
{
    if sorted.len() == 0 {
        assert(seq![row] =~= sorted.insert(at, row));
    } else if at == 0 {
        assert(seq![row] + sorted =~= sorted.insert(at, row));
    } else {
        let rest = sorted.drop_first();
        assert(sorted[0].dt.day() <= row.dt.day());
        assert forall|k: int| 0 <= k < at - 1 implies (#[trigger] rest[k]).dt.day()
            <= row.dt.day() by {
            assert(rest[k] == sorted[k + 1]);
        }
        lemma_insert_position(rest, row, at - 1);
        assert(seq![sorted[0]] + rest.insert(at - 1, row) =~= sorted.insert(at, row));
    }
}

/// `insert_by_date` adds one row, takes every other row from what it was given,
/// and keeps ascending order.
pub proof fn lemma_insert_by_date(sorted: Seq<StockPrice>, row: StockPrice)
    ensures
        insert_by_date(sorted, row).len() == sorted.len() + 1,
        ascending(sorted) ==> ascending(insert_by_date(sorted, row)),
        forall|k: int|
            0 <= k < sorted.len() + 1 ==> (#[trigger] insert_by_date(sorted, row)[k]) == row
                || sorted.contains(insert_by_date(sorted, row)[k]),
    decreases sorted.len(),
{
    let out = insert_by_date(sorted, row);
    if sorted.len() == 0 {
        assert(out =~= Seq::<StockPrice>::empty().push(row));
        assert(sorted =~= Seq::<StockPrice>::empty());
    } else if row.dt.day() < sorted[0].dt.day() {
        assert(out =~= sorted.insert(0, row));
        assert forall|k: int| 0 <= k < sorted.len() + 1 implies (#[trigger] out[k]) == row
            || sorted.contains(out[k]) by {
            if k > 0 {
                assert(out[k] == sorted[k - 1]);
            }
        }
    } else {
        let rest = sorted.drop_first();
        let tail = insert_by_date(rest, row);
        lemma_insert_by_date(rest, row);
        assert(out =~= tail.insert(0, sorted[0]));
        assert(sorted =~= rest.insert(0, sorted[0]));
        assert forall|k: int| 0 <= k < sorted.len() + 1 implies (#[trigger] out[k]) == row
            || sorted.contains(out[k]) by {
            if k == 0 {
                assert(out[k] == sorted[0]);
            } else {
                assert(out[k] == tail[k - 1]);
                if tail[k - 1] != row {
                    assert(rest.contains(tail[k - 1]));
                    let w = choose|w: int| 0 <= w < rest.len() && rest[w] == tail[k - 1];
                    assert(sorted[w + 1] == tail[k - 1]);
                }
            }
        }
        if ascending(sorted) {
            assert forall|i: int, j: int| 0 <= i < j < rest.len() implies rest[i].dt.day()
                <= rest[j].dt.day() by {
                assert(rest[i] == sorted[i + 1] && rest[j] == sorted[j + 1]);
            }
            assert forall|i: int, j: int| 0 <= i < j < out.len() implies out[i].dt.day()
                <= out[j].dt.day() by {
                assert(out[j] == tail[j - 1]);
                if i == 0 {
                    assert(out[0] == sorted[0]);
                    if tail[j - 1] != row {
                        assert(rest.contains(tail[j - 1]));
                        let w = choose|w: int| 0 <= w < rest.len() && rest[w] == tail[j - 1];
                        assert(sorted[w + 1] == tail[j - 1]);
                    }
                } else {
                    assert(out[i] == tail[i - 1]);
                }
            }
        }
    }
}

/// A series is in ascending order of date, holds as many rows as the table has
/// for the instrument, and each of its rows is a row of the table for that
/// instrument.
pub proof fn lemma_series_of(table: Seq<StockPrice>, stock_id: i32)
    ensures
        ascending(series_of(table, stock_id)),
        series_of(table, stock_id).len() == count_of(table, stock_id),
        forall|k: int|
            0 <= k < series_of(table, stock_id).len() ==> (#[trigger] series_of(
                table,
                stock_id,
            )[k]).stock_id == stock_id && table.contains(series_of(table, stock_id)[k]),
    decreases table.len(),
{
    if table.len() > 0 {
        let front = table.drop_last();
        let prev = series_of(front, stock_id);
        lemma_series_of(front, stock_id);
        let out = series_of(table, stock_id);
        if table.last().stock_id == stock_id {
            lemma_insert_by_date(prev, table.last());
        }
        assert forall|k: int| 0 <= k < out.len() implies (#[trigger] out[k]).stock_id == stock_id
            && table.contains(out[k]) by {
            if out[k] == table.last() && table.last().stock_id == stock_id {
                assert(table[table.len() - 1] == out[k]);
            } else {
                assert(prev.contains(out[k]));
                let w = choose|w: int| 0 <= w < prev.len() && prev[w] == out[k];
                assert(front.contains(prev[w]));
                let u = choose|u: int| 0 <= u < front.len() && front[u] == prev[w];
                assert(table[u] == out[k]);
            }
        }
    }
}

/// The test that picks the rows of instrument `stock_id`.
pub open spec fn of_instrument(stock_id: i32) -> spec_fn(StockPrice) -> bool {
    |row: StockPrice| row.stock_id == stock_id
}

/// The position at which `insert_by_date` puts `row` into `sorted`.
pub open spec fn position_by_date(sorted: Seq<StockPrice>, row: StockPrice) -> int
    decreases sorted.len(),
{
    if sorted.len() == 0 || row.dt.day() < sorted[0].dt.day() {
        0
    } else {
        1 + position_by_date(sorted.drop_first(), row)
    }
}

/// `insert_by_date` puts the row in at `position_by_date` and moves no other row.
pub proof fn lemma_insert_by_date_position(sorted: Seq<StockPrice>, row: StockPrice)
    ensures
        0 <= position_by_date(sorted, row) <= sorted.len(),
        insert_by_date(sorted, row) == sorted.insert(position_by_date(sorted, row), row),
    decreases sorted.len(),
{
    if sorted.len() == 0 || row.dt.day() < sorted[0].dt.day() {
        assert(insert_by_date(sorted, row) =~= sorted.insert(0, row));
    } else {
        let rest = sorted.drop_first();
        lemma_insert_by_date_position(rest, row);
        let at = position_by_date(rest, row);
        assert(seq![sorted[0]] + rest.insert(at, row) =~= sorted.insert(at + 1, row));
    }
}

/// A series holds exactly the rows that the table has for the instrument, each
/// as often as the table has it.
pub proof fn lemma_series_is_permutation(table: Seq<StockPrice>, stock_id: i32)
    ensures
        series_of(table, stock_id).to_multiset() == table.filter(
            of_instrument(stock_id),
        ).to_multiset(),
    decreases table.len(),
{
    broadcast use vstd::multiset::group_multiset_axioms;
    broadcast use vstd::seq_lib::group_to_multiset_ensures;

    reveal(Seq::filter);
    let picked = table.filter(of_instrument(stock_id));
    if table.len() > 0 {
        let front = table.drop_last();
        let row = table.last();
        lemma_series_is_permutation(front, stock_id);
        if row.stock_id == stock_id {
            let prev = series_of(front, stock_id);
            let out = insert_by_date(prev, row);
            let at = position_by_date(prev, row);
            lemma_insert_by_date_position(prev, row);
            assert(out.remove(at) =~= prev);
            assert(out[at] == row);
            vstd::seq_lib::to_multiset_remove(out, at);
            assert(out.contains(row));
            assert(out.to_multiset().count(row) > 0);
            assert(out.to_multiset() =~= prev.to_multiset().insert(row));
            assert(picked == front.filter(of_instrument(stock_id)).push(row));
        } else {
            assert(picked == front.filter(of_instrument(stock_id)));
        }
    }
}

/// A table without rows for an instrument has an empty series for it.
pub proof fn lemma_series_of_absent(table: Seq<StockPrice>, stock_id: i32)
    requires
        forall|k: int| 0 <= k < table.len() ==> (#[trigger] table[k]).stock_id != stock_id,
    ensures
        series_of(table, stock_id) == Seq::<StockPrice>::empty(),
    decreases table.len(),
{
    if table.len() > 0 {
        let front = table.drop_last();
        assert forall|k: int| 0 <= k < front.len() implies (#[trigger] front[k]).stock_id
            != stock_id by {
            assert(front[k] == table[k]);
        }
        lemma_series_of_absent(front, stock_id);
        assert(table[table.len() - 1].stock_id != stock_id);
    }
}

/// Rows of other instruments that are appended to a table leave the series of an
/// instrument as it was.
pub proof fn lemma_series_skips_others(
    table: Seq<StockPrice>,
    added: Seq<StockPrice>,
    stock_id: i32,
)
    requires
        forall|k: int| 0 <= k < added.len() ==> (#[trigger] added[k]).stock_id != stock_id,
    ensures
        series_of(table + added, stock_id) == series_of(table, stock_id),
    decreases added.len(),
{
    if added.len() == 0 {
        assert(table + added =~= table);
    } else {
        let front = added.drop_last();
        assert forall|k: int| 0 <= k < front.len() implies (#[trigger] front[k]).stock_id
            != stock_id by {
            assert(front[k] == added[k]);
        }
        lemma_series_skips_others(table, front, stock_id);
        assert((table + added).drop_last() =~= table + front);
        assert((table + added).last() == added[added.len() - 1]);
    }
}

/// Two tables that hold the same series for an instrument still do so after the
/// same rows were appended to both, and hold equally many rows for it.
pub proof fn lemma_same_rows_same_series(
    first: Seq<StockPrice>,
    second: Seq<StockPrice>,
    added: Seq<StockPrice>,
    stock_id: i32,
)
    requires
        series_of(first, stock_id) == series_of(second, stock_id),
    ensures
        series_of(first + added, stock_id) == series_of(second + added, stock_id),
        count_of(first + added, stock_id) == count_of(second + added, stock_id),
    decreases added.len(),
{
    lemma_series_of(first + added, stock_id);
    lemma_series_of(second + added, stock_id);
    if added.len() == 0 {
        assert(first + added =~= first);
        assert(second + added =~= second);
    } else {
        let front = added.drop_last();
        lemma_same_rows_same_series(first, second, front, stock_id);
        assert((first + added).drop_last() =~= first + front);
        assert((second + added).drop_last() =~= second + front);
    }
}

/// Reads the series of instrument `stock_id` out of a table.
pub fn get_series(table: &Vec<StockPrice>, stock_id: i32) -> (r: Vec<StockPrice>)
    ensures
        r@ == series_of(table@, stock_id),
{
    let mut out: Vec<StockPrice> = Vec::new();
    let mut i: usize = 0;
    while i < table.len()
        invariant
            0 <= i <= table.len(),
            out@ == series_of(table@.take(i as int), stock_id),
        decreases table.len() - i,
    {
        let row = table[i];
        proof {
            assert(table@.take(i + 1).drop_last() =~= table@.take(i as int));
            assert(table@.take(i + 1).last() == row);
            lemma_series_of(table@.take(i as int), stock_id);
        }
        if row.stock_id == stock_id {
            let mut at: usize = 0;
            while at < out.len() && !row.dt.is_before(&out[at].dt)
                invariant
                    0 <= at <= out.len(),
                    forall|k: int| 0 <= k < at ==> (#[trigger] out@[k]).dt.day() <= row.dt.day(),
                decreases out.len() - at,
            {
                at = at + 1;
            }
            proof {
                lemma_insert_position(out@, row, at as int);
            }
            out.insert(at, row);
        }
        i = i + 1;
    }
    assert(table@.take(table.len() as int) =~= table@);
    out
}

/// Turns stored rows into the prices that are served, in the same order.
pub fn to_prices(series: Vec<StockPrice>) -> (r: Vec<Price>)
    ensures
        r@ == prices_of(series@),
{
    let mut out: Vec<Price> = Vec::new();
    let mut i: usize = 0;
    while i < series.len()
        invariant
            0 <= i <= series.len(),
            out@ == prices_of(series@.take(i as int)),
        decreases series.len() - i,
    {
        out.push(Price::from(series[i]));
        i = i + 1;
        assert(out@ =~= prices_of(series@.take(i as int)));
    }
    assert(series@.take(series.len() as int) =~= series@);
    out
}

} // verus!
