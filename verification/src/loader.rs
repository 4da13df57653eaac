//! The bulk loader: one insert batch per instrument, the instruments of a sink
//! one after the other, and a report of the instruments whose insert failed.

use crate::batch::{batch_rows, column_batch, InsertBatch};
use crate::calendar::CalendarDate;
use crate::grid::{create_sample_date, date_grid, grid_exists, price_series, strictly_descending};
use crate::model::{Amount, Instrument, PipelineError, SinkId, StockDefinition, StockPrice};
use crate::registry::{has_id, instruments_of, registered_all, tickers_of};
use crate::sink::{
    ascending, count_of, insert_by_date, lemma_same_rows_same_series, lemma_series_of,
    lemma_series_skips_others, series_of,
};
use crate::store::{accepts, Store};
use vstd::prelude::*;

verus! {

/// The ids of registry rows, in their order.
pub open spec fn ids_of(rows: Seq<StockDefinition>) -> Seq<i32> {
    rows.map_values(|d: StockDefinition| d.id)
}

/// Whether a run's result reports exactly the given failed instruments: success
/// where there are none, and otherwise a partial failure that lists them in
/// order.
pub open spec fn reports(result: Result<(), PipelineError>, failed: Seq<i32>) -> bool {
    match result {
        Ok(_) => failed.len() == 0,
        Err(PipelineError::PartialFailure { failed_instrument_ids }) => failed.len() > 0
            && failed_instrument_ids@ == failed,
        Err(_) => false,
    }
}

/// The progress of one sink's population run: how many instruments have been
/// dealt with, and the ids of those whose insert failed.
///
/// The caller asks for the next batch, performs the insert, and records how it
/// went, until no batch is left; then it asks for the result.
#[derive(Debug)]
pub struct PopulationRun {
    pub position: usize,
    pub failed: Vec<i32>,
}

impl PopulationRun {
    /// A run that has dealt with no instrument yet.
    pub fn new() -> (r: PopulationRun)
        ensures
            r.position == 0,
            r.failed@.len() == 0,
    {
        PopulationRun { position: 0, failed: Vec::new() }
    }

    /// Whether every instrument of `stock_registry` has been dealt with.
    pub fn is_complete(&self, stock_registry: &Vec<StockDefinition>) -> (r: bool)
        ensures
            r == (self.position >= stock_registry@.len()),
    {
        self.position >= stock_registry.len()
    }

    /// The batch to insert next: the columns of the instrument at the run's
    /// position, or `None` where every instrument has been dealt with.
    pub fn next_batch(
        &self,
        stock_registry: &Vec<StockDefinition>,
        date_grid: &Vec<CalendarDate>,
        prices: &Vec<Amount>,
    ) -> (r: Option<InsertBatch>)
        ensures
            r is Some <==> self.position < stock_registry@.len(),
            r matches Some(batch) ==> batch.is_columns_of(
                stock_registry@[self.position as int].id,
                date_grid@,
                prices@,
            ),
    {
        if self.position < stock_registry.len() {
            Some(column_batch(stock_registry[self.position].id, date_grid, prices))
        } else {
            None
        }
    }

    /// Records how the insert of the instrument at the run's position went, and
    /// moves on to the next instrument. A failed insert adds the instrument's id
    /// to the failed ones.
    pub fn record(&mut self, stock_registry: &Vec<StockDefinition>, inserted: bool)
        requires
            old(self).position < stock_registry@.len(),
        ensures
            final(self).position == old(self).position + 1,
            final(self).failed@ == (if inserted {
                old(self).failed@
            } else {
                old(self).failed@.push(stock_registry@[old(self).position as int].id)
            }),
    {
        let total = stock_registry.len();
        if !inserted {
            self.failed.push(stock_registry[self.position].id);
        }
        assert(self.position < total);
        self.position = self.position + 1;
    }

    /// The result of the run: success where no insert failed, and otherwise
    /// `PartialFailure` with the ids of the instruments whose insert failed, in
    /// the order of the run.
    pub fn finish(self) -> (r: Result<(), PipelineError>)
        ensures
            reports(r, self.failed@),
    {
        if self.failed.len() == 0 {
            Ok(())
        } else {
            Err(PipelineError::PartialFailure { failed_instrument_ids: self.failed })
        }
    }
}

/// Whether a store with the given registry takes the columns of instrument
/// `stock_id` over the given axes: the axes have one length and, unless they are
/// empty, the instrument is registered.
pub open spec fn takes_columns(
    registry: Seq<Instrument>,
    stock_id: i32,
    dates: Seq<CalendarDate>,
    values: Seq<Amount>,
) -> bool {
    dates.len() == values.len() && (dates.len() > 0 ==> has_id(registry, stock_id as int))
}

/// A table after a population run over the instruments `ids`: behind what it
/// held, the rows of each instrument whose columns were taken, instrument by
/// instrument.
pub open spec fn loaded(
    table: Seq<StockPrice>,
    registry: Seq<Instrument>,
    ids: Seq<i32>,
    dates: Seq<CalendarDate>,
    values: Seq<Amount>,
) -> Seq<StockPrice>
    decreases ids.len(),
{
    if ids.len() == 0 {
        table
    } else if takes_columns(registry, ids.last(), dates, values) {
        loaded(table, registry, ids.drop_last(), dates, values) + batch_rows(
            ids.last(),
            dates,
            values,
        )
    } else {
        loaded(table, registry, ids.drop_last(), dates, values)
    }
}

/// The instruments among `ids` whose columns were not taken, in order.
pub open spec fn rejected(
    registry: Seq<Instrument>,
    ids: Seq<i32>,
    dates: Seq<CalendarDate>,
    values: Seq<Amount>,
) -> Seq<i32>
    decreases ids.len(),
{
    if ids.len() == 0 {
        Seq::empty()
    } else if takes_columns(registry, ids.last(), dates, values) {
        rejected(registry, ids.drop_last(), dates, values)
    } else {
        rejected(registry, ids.drop_last(), dates, values).push(ids.last())
    }
}

/// A store takes the column batch of an instrument exactly when it takes the
/// instrument's columns.
pub proof fn lemma_accepts_columns(
    registry: Seq<Instrument>,
    batch: &InsertBatch,
    stock_id: i32,
    dates: Seq<CalendarDate>,
    values: Seq<Amount>,
)
    requires
        batch.is_columns_of(stock_id, dates, values),
    ensures
        accepts(registry, batch) == takes_columns(registry, stock_id, dates, values),
        batch.aligned() ==> batch.rows() == batch_rows(stock_id, dates, values),
{
    if takes_columns(registry, stock_id, dates, values) {
        assert(accepts(registry, batch));
    }
    if accepts(registry, batch) && dates.len() > 0 {
        assert(batch.instrument_ids@[0] == stock_id);
    }
    if batch.aligned() {
        assert(batch.rows() =~= batch_rows(stock_id, dates, values));
    }
}

/// Populates one sink of the store: for each instrument of `stock_registry`, in
/// order, one insert of its columns over the date grid and the prices.
///
/// An insert that fails does not stop the run. The result is success where every
/// insert was taken, and otherwise `PartialFailure` with the ids of the
/// instruments whose insert failed. The registry and the other sink stay as they
/// are.
pub fn populate(
    store: &mut Store,
    sink: SinkId,
    stock_registry: &Vec<StockDefinition>,
    date_grid: &Vec<CalendarDate>,
    prices: &Vec<Amount>,
) -> (r: Result<(), PipelineError>)
    ensures
        final(store).registry == old(store).registry,
        forall|other: SinkId| other != sink ==> final(store).table(other) == old(store).table(other),
        final(store).table(sink) == loaded(
            old(store).table(sink),
            old(store).registry@,
            ids_of(stock_registry@),
            date_grid@,
            prices@,
        ),
        reports(r, rejected(old(store).registry@, ids_of(stock_registry@), date_grid@, prices@)),
{
    let ghost start = store.table(sink);
    let ghost registry = store.registry@;
    let ghost ids = ids_of(stock_registry@);
    let mut run = PopulationRun::new();
    assert(ids.take(0) =~= Seq::<i32>::empty());
    while !run.is_complete(stock_registry)
        invariant
            0 <= run.position <= stock_registry@.len(),
            ids == ids_of(stock_registry@),
            start == old(store).table(sink),
            registry == old(store).registry@,
            store.registry == old(store).registry,
            forall|other: SinkId| other != sink ==> store.table(other) == old(store).table(other),
            store.table(sink) == loaded(
                start,
                registry,
                ids.take(run.position as int),
                date_grid@,
                prices@,
            ),
            run.failed@ == rejected(registry, ids.take(run.position as int), date_grid@, prices@),
        decreases stock_registry@.len() - run.position,
    {
        let ghost at = run.position as int;
        match run.next_batch(stock_registry, date_grid, prices) {
            Some(batch) => {
                proof {
                    lemma_accepts_columns(registry, &batch, ids[at], date_grid@, prices@);
                    assert(ids.take(at + 1).drop_last() =~= ids.take(at));
                    assert(ids.take(at + 1).last() == ids[at]);
                }
                let inserted = store.insert_batch(sink, &batch).is_ok();
                run.record(stock_registry, inserted);
            },
            None => {},
        }
    }
    assert(ids.take(stock_registry@.len() as int) =~= ids);
    run.finish()
}

/// Populates the row-oriented sink.
pub fn timeseries_population(
    store: &mut Store,
    stock_registry: &Vec<StockDefinition>,
    date_grid: &Vec<CalendarDate>,
    prices: &Vec<Amount>,
) -> (r: Result<(), PipelineError>)
    ensures
        final(store).registry == old(store).registry,
        final(store).table(SinkId::Timescale) == old(store).table(SinkId::Timescale),
        final(store).table(SinkId::Timeseries) == loaded(
            old(store).table(SinkId::Timeseries),
            old(store).registry@,
            ids_of(stock_registry@),
            date_grid@,
            prices@,
        ),
        reports(r, rejected(old(store).registry@, ids_of(stock_registry@), date_grid@, prices@)),
{
    populate(store, SinkId::Timeseries, stock_registry, date_grid, prices)
}

/// Populates the time-partitioned sink.
pub fn timescale_population(
    store: &mut Store,
    stock_registry: &Vec<StockDefinition>,
    date_grid: &Vec<CalendarDate>,
    prices: &Vec<Amount>,
) -> (r: Result<(), PipelineError>)
    ensures
        final(store).registry == old(store).registry,
        final(store).table(SinkId::Timeseries) == old(store).table(SinkId::Timeseries),
        final(store).table(SinkId::Timescale) == loaded(
            old(store).table(SinkId::Timescale),
            old(store).registry@,
            ids_of(stock_registry@),
            date_grid@,
            prices@,
        ),
        reports(r, rejected(old(store).registry@, ids_of(stock_registry@), date_grid@, prices@)),
{
    populate(store, SinkId::Timescale, stock_registry, date_grid, prices)
}

/// Populates both sinks with the same instruments, date grid and prices, and
/// returns the result of the time-partitioned sink and that of the row-oriented
/// sink, in this order. A failure in one sink does not keep the other from being
/// populated. An instrument whose series was the same in both sinks has the same
/// series in both afterwards.
pub fn populate_sinks(
    store: &mut Store,
    stock_registry: &Vec<StockDefinition>,
    date_grid: &Vec<CalendarDate>,
    prices: &Vec<Amount>,
) -> (r: (Result<(), PipelineError>, Result<(), PipelineError>))
    ensures
        final(store).registry == old(store).registry,
        final(store).table(SinkId::Timescale) == loaded(
            old(store).table(SinkId::Timescale),
            old(store).registry@,
            ids_of(stock_registry@),
            date_grid@,
            prices@,
        ),
        final(store).table(SinkId::Timeseries) == loaded(
            old(store).table(SinkId::Timeseries),
            old(store).registry@,
            ids_of(stock_registry@),
            date_grid@,
            prices@,
        ),
        reports(r.0, rejected(old(store).registry@, ids_of(stock_registry@), date_grid@, prices@)),
        reports(r.1, rejected(old(store).registry@, ids_of(stock_registry@), date_grid@, prices@)),
        forall|stock_id: i32|
            series_of(old(store).table(SinkId::Timescale), stock_id) == series_of(
                old(store).table(SinkId::Timeseries),
                stock_id,
            ) ==> #[trigger] series_of(final(store).table(SinkId::Timescale), stock_id)
                == series_of(final(store).table(SinkId::Timeseries), stock_id),
{
    let timescale = timescale_population(store, stock_registry, date_grid, prices);
    let timeseries = timeseries_population(store, stock_registry, date_grid, prices);
    proof {
        assert forall|stock_id: i32|
            series_of(old(store).table(SinkId::Timescale), stock_id) == series_of(
                old(store).table(SinkId::Timeseries),
                stock_id,
            ) implies #[trigger] series_of(store.table(SinkId::Timescale), stock_id) == series_of(
            store.table(SinkId::Timeseries),
            stock_id,
        ) by {
            lemma_sinks_agree(
                old(store).table(SinkId::Timescale),
                old(store).table(SinkId::Timeseries),
                old(store).registry@,
                ids_of(stock_registry@),
                date_grid@,
                prices@,
                stock_id,
            );
        }
    }
    (timescale, timeseries)
}

/// The ids of instruments, in their order.
pub open spec fn instrument_ids(rows: Seq<Instrument>) -> Seq<i32> {
    rows.map_values(|e: Instrument| e.id as i32)
}

/// A run whose date grid and prices have one length, and whose instruments are
/// all registered, fails for no instrument.
pub proof fn lemma_registered_run_succeeds(
    registry: Seq<Instrument>,
    ids: Seq<i32>,
    dates: Seq<CalendarDate>,
    values: Seq<Amount>,
)
    requires
        dates.len() == values.len(),
        forall|k: int| 0 <= k < ids.len() ==> has_id(registry, #[trigger] ids[k] as int),
    ensures
        rejected(registry, ids, dates, values).len() == 0,
    decreases ids.len(),
{
    if ids.len() > 0 {
        let front = ids.drop_last();
        assert forall|k: int| 0 <= k < front.len() implies has_id(
            registry,
            #[trigger] front[k] as int,
        ) by {
            assert(front[k] == ids[k]);
        }
        lemma_registered_run_succeeds(registry, front, dates, values);
        assert(has_id(registry, ids[ids.len() - 1] as int));
    }
}

/// A whole population job on the store: registers the tickers, generates the
/// grid of `n_prices` days that ends at `end_date`, and populates both sinks with
/// every registered instrument.
///
/// The tickers are registered whether or not the grid exists. Where it does not,
/// the job fails with `InvalidArgument` and leaves both sinks as they were. Where
/// it does, every insert is taken and the job succeeds.
pub fn run_population(
    store: &mut Store,
    tickers: &Vec<String>,
    n_prices: usize,
    end_date: CalendarDate,
) -> (r: Result<(), PipelineError>)
    requires
        old(store).wf(),
    ensures
        final(store).wf(),
        final(store).registry@ == registered_all(
            old(store).registry@,
            old(store).registry.next_id as int,
            tickers_of(tickers@),
        ).0,
        final(store).registry.next_id == registered_all(
            old(store).registry@,
            old(store).registry.next_id as int,
            tickers_of(tickers@),
        ).1,
        r is Ok <==> grid_exists(n_prices as nat, end_date),
        r matches Err(e) ==> e == PipelineError::InvalidArgument,
        forall|sink: SinkId|
            #![trigger final(store).table(sink)]
            final(store).table(sink) == (if grid_exists(n_prices as nat, end_date) {
                loaded(
                    old(store).table(sink),
                    final(store).registry@,
                    instrument_ids(final(store).registry@),
                    date_grid(n_prices as nat, end_date),
                    price_series(n_prices as nat),
                )
            } else {
                old(store).table(sink)
            }),
{
    store.registry.seed(tickers);
    let stock_registry = store.registry.list_all();
    let (date_grid, prices) = match create_sample_date(n_prices, end_date) {
        Ok(axes) => axes,
        Err(e) => {
            return Err(e);
        },
    };
    proof {
        let registry = store.registry@;
        let ids = ids_of(stock_registry@);
        assert(ids =~= instrument_ids(registry)) by {
            assert(instruments_of(stock_registry@) == registry);
            assert forall|k: int| 0 <= k < ids.len() implies ids[k] == instrument_ids(
                registry,
            )[k] by {
                assert(instruments_of(stock_registry@)[k] == stock_registry@[k]@);
            }
        }
        assert forall|k: int| 0 <= k < ids.len() implies has_id(registry, #[trigger] ids[k] as int) by {
            assert(registry[k].id == ids[k]);
        }
        lemma_registered_run_succeeds(registry, ids, date_grid@, prices@);
    }
    let (timescale, timeseries) = populate_sinks(store, &stock_registry, &date_grid, &prices);
    match timescale {
        Ok(_) => timeseries,
        Err(e) => Err(e),
    }
}

/// Round trip. Where a table holds no row of an instrument, and the rows of that
/// instrument over a strictly descending date axis are appended to it, the
/// instrument's series is those rows in reverse: as many points as the axis has
/// dates, in ascending order of date, each date with its own price.
pub proof fn lemma_round_trip(
    table: Seq<StockPrice>,
    stock_id: i32,
    dates: Seq<CalendarDate>,
    values: Seq<Amount>,
)
    requires
        dates.len() == values.len(),
        strictly_descending(dates),
        series_of(table, stock_id).len() == 0,
    ensures
        series_of(table + batch_rows(stock_id, dates, values), stock_id) == batch_rows(
            stock_id,
            dates,
            values,
        ).reverse(),
        series_of(table + batch_rows(stock_id, dates, values), stock_id).len() == dates.len(),
        ascending(series_of(table + batch_rows(stock_id, dates, values), stock_id)),
{
    let rows = batch_rows(stock_id, dates, values);
    lemma_round_trip_prefix(table, stock_id, dates, values, rows.len() as int);
    assert(rows.take(rows.len() as int) =~= rows);
    lemma_series_of(table + rows, stock_id);
}

/// The round trip for the first `n` rows of an instrument.
proof fn lemma_round_trip_prefix(
    table: Seq<StockPrice>,
    stock_id: i32,
    dates: Seq<CalendarDate>,
    values: Seq<Amount>,
    n: int,
)
    requires
        dates.len() == values.len(),
        strictly_descending(dates),
        series_of(table, stock_id).len() == 0,
        0 <= n <= dates.len(),
    ensures
        series_of(table + batch_rows(stock_id, dates, values).take(n), stock_id) == batch_rows(
            stock_id,
            dates,
            values,
        ).take(n).reverse(),
    decreases n,
{
    let rows = batch_rows(stock_id, dates, values);
    if n == 0 {
        assert(table + rows.take(0) =~= table);
        assert(rows.take(0).reverse() =~= Seq::<StockPrice>::empty());
        assert(series_of(table, stock_id) =~= Seq::<StockPrice>::empty());
    } else {
        lemma_round_trip_prefix(table, stock_id, dates, values, n - 1);
        let whole = table + rows.take(n);
        let before = series_of(table + rows.take(n - 1), stock_id);
        assert(whole.drop_last() =~= table + rows.take(n - 1));
        assert(whole.last() == rows[n - 1]);
        assert(series_of(whole, stock_id) == insert_by_date(before, rows[n - 1]));
        if n == 1 {
            assert(before =~= Seq::<StockPrice>::empty());
            assert(rows.take(1).reverse() =~= seq![rows[0]]);
        } else {
            assert(before[0] == rows.take(n - 1)[n - 2]);
            assert(rows[n - 1].dt.day() < rows[n - 2].dt.day());
            assert(seq![rows[n - 1]] + before =~= rows.take(n).reverse());
        }
    }
}

/// A population run over instruments other than `stock_id` leaves the series of
/// `stock_id` as it was.
pub proof fn lemma_run_skips_others(
    table: Seq<StockPrice>,
    registry: Seq<Instrument>,
    ids: Seq<i32>,
    dates: Seq<CalendarDate>,
    values: Seq<Amount>,
    stock_id: i32,
)
    requires
        forall|q: int| 0 <= q < ids.len() ==> ids[q] != stock_id,
    ensures
        series_of(loaded(table, registry, ids, dates, values), stock_id) == series_of(
            table,
            stock_id,
        ),
    decreases ids.len(),
{
    if ids.len() > 0 {
        let front = ids.drop_last();
        assert forall|q: int| 0 <= q < front.len() implies front[q] != stock_id by {
            assert(front[q] == ids[q]);
        }
        lemma_run_skips_others(table, registry, front, dates, values, stock_id);
        assert(ids.last() == ids[ids.len() - 1]);
        lemma_series_skips_others(
            loaded(table, registry, front, dates, values),
            batch_rows(ids.last(), dates, values),
            stock_id,
        );
    }
}

/// Round trip of a whole run. Where a sink holds no row of an instrument, and a
/// population run over a strictly descending date grid names the instrument
/// once, at position `at`, and its insert is taken, the instrument's series in
/// that sink is afterwards its rows in reverse: one point per date of the grid,
/// in ascending order of date, each date with its own price.
pub proof fn lemma_run_round_trip(
    table: Seq<StockPrice>,
    registry: Seq<Instrument>,
    ids: Seq<i32>,
    dates: Seq<CalendarDate>,
    values: Seq<Amount>,
    at: int,
)
    requires
        strictly_descending(dates),
        0 <= at < ids.len(),
        forall|q: int| 0 <= q < ids.len() && q != at ==> ids[q] != ids[at],
        takes_columns(registry, ids[at], dates, values),
        series_of(table, ids[at]).len() == 0,
    ensures
        series_of(loaded(table, registry, ids, dates, values), ids[at]) == batch_rows(
            ids[at],
            dates,
            values,
        ).reverse(),
        series_of(loaded(table, registry, ids, dates, values), ids[at]).len() == dates.len(),
        ascending(series_of(loaded(table, registry, ids, dates, values), ids[at])),
    decreases ids.len(),
{
    let stock_id = ids[at];
    let front = ids.drop_last();
    let before = loaded(table, registry, front, dates, values);
    assert(ids.last() == ids[ids.len() - 1]);
    if at == ids.len() - 1 {
        assert forall|q: int| 0 <= q < front.len() implies front[q] != stock_id by {
            assert(front[q] == ids[q]);
        }
        lemma_run_skips_others(table, registry, front, dates, values, stock_id);
        lemma_round_trip(before, stock_id, dates, values);
    } else {
        assert(front[at] == ids[at]);
        assert forall|q: int| 0 <= q < front.len() && q != at implies front[q] != front[at] by {
            assert(front[q] == ids[q]);
        }
        lemma_run_round_trip(table, registry, front, dates, values, at);
        lemma_series_skips_others(before, batch_rows(ids.last(), dates, values), stock_id);
    }
}

/// Two sinks that hold the same series for an instrument hold the same series
/// for it, and equally many rows, after population runs with the same
/// instruments, date grid and prices.
pub proof fn lemma_sinks_agree(
    first: Seq<StockPrice>,
    second: Seq<StockPrice>,
    registry: Seq<Instrument>,
    ids: Seq<i32>,
    dates: Seq<CalendarDate>,
    values: Seq<Amount>,
    stock_id: i32,
)
    requires
        series_of(first, stock_id) == series_of(second, stock_id),
    ensures
        series_of(loaded(first, registry, ids, dates, values), stock_id) == series_of(
            loaded(second, registry, ids, dates, values),
            stock_id,
        ),
        count_of(loaded(first, registry, ids, dates, values), stock_id) == count_of(
            loaded(second, registry, ids, dates, values),
            stock_id,
        ),
    decreases ids.len(),
{
    lemma_series_of(loaded(first, registry, ids, dates, values), stock_id);
    lemma_series_of(loaded(second, registry, ids, dates, values), stock_id);
    if ids.len() > 0 {
        lemma_sinks_agree(first, second, registry, ids.drop_last(), dates, values, stock_id);
        if takes_columns(registry, ids.last(), dates, values) {
            lemma_same_rows_same_series(
                loaded(first, registry, ids.drop_last(), dates, values),
                loaded(second, registry, ids.drop_last(), dates, values),
                batch_rows(ids.last(), dates, values),
                stock_id,
            );
        }
    }
}

} // verus!
