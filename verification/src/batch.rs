//! Column-wise insert batches: the rows of one instrument as three columns of
//! equal length, which a sink expands row by row in a single insert.

use crate::calendar::CalendarDate;
use crate::model::{Amount, StockPrice};
use vstd::prelude::*;

verus! {

/// The three columns of one set-oriented insert.
#[derive(Debug, PartialEq, Eq)]
pub struct InsertBatch {
    pub instrument_ids: Vec<i32>,
    pub dates: Vec<CalendarDate>,
    pub values: Vec<Amount>,
}

/// The rows that stand for instrument `stock_id` over a date axis and a price
/// axis: row `k` pairs date `k` with price `k`.
pub open spec fn batch_rows(stock_id: i32, dates: Seq<CalendarDate>, values: Seq<Amount>) -> Seq<
    StockPrice,
>
    recommends
        dates.len() == values.len(),
{
    Seq::new(dates.len(), |k: int| StockPrice { stock_id, dt: dates[k], close: values[k] })
}

impl InsertBatch {
    /// Whether the three columns have one length.
    pub open spec fn aligned(&self) -> bool {
        self.instrument_ids@.len() == self.dates@.len() && self.dates@.len() == self.values@.len()
    }

    /// The rows that the batch expands to: row `k` takes entry `k` of each column.
    pub open spec fn rows(&self) -> Seq<StockPrice>
        recommends
            self.aligned(),
    {
        Seq::new(
            self.dates@.len(),
            |k: int|
                StockPrice {
                    stock_id: self.instrument_ids@[k],
                    dt: self.dates@[k],
                    close: self.values@[k],
                },
        )
    }

    /// Whether the batch is the columns of instrument `stock_id` over the given
    /// axes: the id repeated once per date, the dates, and the values.
    pub open spec fn is_columns_of(
        &self,
        stock_id: i32,
        dates: Seq<CalendarDate>,
        values: Seq<Amount>,
    ) -> bool {
        &&& self.instrument_ids@ == Seq::new(dates.len(), |k: int| stock_id)
        &&& self.dates@ == dates
        &&& self.values@ == values
    }

    /// Whether the columns have one length, tested on the batch itself.
    pub fn is_aligned(&self) -> (r: bool)
        ensures
            r == self.aligned(),
    {
        self.instrument_ids.len() == self.dates.len() && self.dates.len() == self.values.len()
    }
}

/// Builds the insert batch of one instrument: its id once per date, beside the
/// date axis and the price axis.
pub fn column_batch(stock_id: i32, date_grid: &Vec<CalendarDate>, prices: &Vec<Amount>) -> (r:
    InsertBatch)
    ensures
        r.is_columns_of(stock_id, date_grid@, prices@),
        r.aligned() <==> date_grid@.len() == prices@.len(),
        r.aligned() ==> r.rows() == batch_rows(stock_id, date_grid@, prices@),
{
    let mut ids: Vec<i32> = Vec::new();
    let mut dates: Vec<CalendarDate> = Vec::new();
    let mut i: usize = 0;
    while i < date_grid.len()
        invariant
            0 <= i <= date_grid.len(),
            ids@ == Seq::new(i as nat, |k: int| stock_id),
            dates@ == date_grid@.take(i as int),
        decreases date_grid.len() - i,
    {
        ids.push(stock_id);
        dates.push(date_grid[i]);
        i = i + 1;
        assert(ids@ =~= Seq::new(i as nat, |k: int| stock_id));
        assert(dates@ =~= date_grid@.take(i as int));
    }
    assert(date_grid@.take(date_grid.len() as int) =~= date_grid@);
    let mut values: Vec<Amount> = Vec::new();
    let mut j: usize = 0;
    while j < prices.len()
        invariant
            0 <= j <= prices.len(),
            values@ == prices@.take(j as int),
        decreases prices.len() - j,
    {
        values.push(prices[j]);
        j = j + 1;
        assert(values@ =~= prices@.take(j as int));
    }
    assert(prices@.take(prices.len() as int) =~= prices@);
    let batch = InsertBatch { instrument_ids: ids, dates, values };
    assert(batch.aligned() ==> batch.rows() =~= batch_rows(stock_id, date_grid@, prices@));
    batch
}

} // verus!
