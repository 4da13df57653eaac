//! The read side: the registry and the price series as they are served, and
//! the status under which an error is reported.

use crate::model::{PipelineError, Price, SinkId, StockDefinition};
use crate::registry::{has_ticker, instruments_of, matches_twice, only_match};
use crate::sink::{prices_of, series_of, to_prices};
use crate::store::Store;
use vstd::prelude::*;

verus! {

/// The status code for a request that names bad parameters.
pub const STATUS_BAD_REQUEST: u16 = 400;

/// The status code for a lookup that matched nothing.
pub const STATUS_NOT_FOUND: u16 = 404;

/// The status code for every failure of the storage.
pub const STATUS_INTERNAL_ERROR: u16 = 500;

/// The status code under which an error is reported: bad parameters and lookup
/// misses are the caller's, everything else is the server's.
pub open spec fn status_of(error: PipelineError) -> u16 {
    match error {
        PipelineError::InvalidArgument => STATUS_BAD_REQUEST,
        PipelineError::NotFound => STATUS_NOT_FOUND,
        _ => STATUS_INTERNAL_ERROR,
    }
}

/// The status code under which `error` is reported.
pub fn status_code(error: &PipelineError) -> (r: u16)
    ensures
        r == status_of(*error),
{
    match error {
        PipelineError::InvalidArgument => STATUS_BAD_REQUEST,
        PipelineError::NotFound => STATUS_NOT_FOUND,
        _ => STATUS_INTERNAL_ERROR,
    }
}

/// The registry as it is served: every instrument where no ticker is asked for,
/// and otherwise the one instrument that carries the ticker.
///
/// Fails with `NotFound` where a ticker is asked for that no instrument carries,
/// and with `AmbiguousResult` where more than one does, which a consistent
/// registry rules out.
pub fn stocks(store: &Store, ticker: Option<&String>) -> (r: Result<
    Vec<StockDefinition>,
    PipelineError,
>)
    ensures
        match ticker {
            None => r matches Ok(all) && instruments_of(all@) == store.registry@,
            Some(t) => match r {
                Ok(one) => one@.len() == 1 && exists|i: int|
                    only_match(store.registry@, t@, i) && one@[0]@ == store.registry@[i],
                Err(PipelineError::NotFound) => !has_ticker(store.registry@, t@),
                Err(PipelineError::AmbiguousResult) => matches_twice(store.registry@, t@)
                    && !store.wf(),
                Err(_) => false,
            },
        },
{
    store.registry.list(ticker)
}

/// The prices of an instrument in the row-oriented sink, in ascending order of
/// date; empty where the sink holds none.
pub fn time_series(store: &Store, stock_id: i32) -> (r: Vec<Price>)
    ensures
        r@ == prices_of(series_of(store.table(SinkId::Timeseries), stock_id)),
{
    to_prices(store.get_series(stock_id, SinkId::Timeseries))
}

/// The prices of an instrument in the time-partitioned sink, in ascending order
/// of date; empty where the sink holds none.
pub fn time_scale(store: &Store, stock_id: i32) -> (r: Vec<Price>)
    ensures
        r@ == prices_of(series_of(store.table(SinkId::Timescale), stock_id)),
{
    to_prices(store.get_series(stock_id, SinkId::Timescale))
}

} // verus!
