//! The records of the registry and of the price tables, and the errors of the
//! pipeline.

use crate::calendar::CalendarDate;
use vstd::prelude::*;

verus! {

/// A decimal amount with five fractional digits, held as a whole number of
/// hundred-thousandths.
#[derive(Clone, Copy, Debug, PartialEq, Eq, Structural)]
pub struct Amount {
    pub hundred_thousandths: i64,
}

/// One of the two storage targets that receive the same price data.
#[derive(Clone, Copy, Debug, PartialEq, Eq, Structural)]
pub enum SinkId {
    /// The row-oriented table.
    Timeseries,
    /// The time-partitioned table.
    Timescale,
}

/// An instrument that is not registered yet: a ticker without an id.
#[derive(Debug, PartialEq, Eq)]
pub struct InsertableStockDefinition {
    pub ticker: String,
}

/// A registered instrument.
#[derive(Debug, PartialEq, Eq)]
pub struct StockDefinition {
    pub id: i32,
    pub ticker: String,
}

/// Mathematical model of a registered instrument.
pub ghost struct Instrument {
    pub id: int,
    pub ticker: Seq<char>,
}

impl View for StockDefinition {
    type V = Instrument;

    open spec fn view(&self) -> Instrument {
        Instrument { id: self.id as int, ticker: self.ticker@ }
    }
}

impl View for InsertableStockDefinition {
    type V = Seq<char>;

    open spec fn view(&self) -> Seq<char> {
        self.ticker@
    }
}

impl InsertableStockDefinition {
    /// An instrument to register under `ticker`.
    pub fn new(ticker: String) -> (r: Self)
        ensures
            r@ == ticker@,
            r.ticker == ticker,
    {
        Self { ticker }
    }
}

impl StockDefinition {
    /// A copy of this record.
    pub fn duplicate(&self) -> (r: StockDefinition)
        ensures
            r@ == self@,
    {
        StockDefinition { id: self.id, ticker: self.ticker.clone() }
    }
}

/// A stored price row: the close of one instrument on one day.
#[derive(Clone, Copy, Debug, PartialEq, Eq, Structural)]
pub struct StockPrice {
    pub stock_id: i32,
    pub dt: CalendarDate,
    pub close: Amount,
}

/// A price as it is served: a day and a value.
#[derive(Clone, Copy, Debug, PartialEq, Eq, Structural)]
pub struct Price {
    pub dt: CalendarDate,
    pub v: Amount,
}

impl Price {
    /// The served form of a stored row.
    pub open spec fn of_row(row: StockPrice) -> Price {
        Price { dt: row.dt, v: row.close }
    }
}

impl From<StockPrice> for Price {
    fn from(stock_price: StockPrice) -> (r: Price) {
        Self { v: stock_price.close, dt: stock_price.dt }
    }
}

impl vstd::std_specs::convert::FromSpecImpl<StockPrice> for Price {
    open spec fn obeys_from_spec() -> bool {
        true
    }

    open spec fn from_spec(stock_price: StockPrice) -> Price {
        Price::of_row(stock_price)
    }
}

/// What can go wrong in the pipeline.
#[derive(Debug, PartialEq, Eq)]
pub enum PipelineError {
    /// The generator was asked for an empty grid, or for one that leaves the
    /// calendar.
    InvalidArgument,
    /// A lookup matched nothing.
    NotFound,
    /// A lookup by ticker matched more than one instrument.
    AmbiguousResult,
    /// An insert broke a constraint of the schema.
    ConstraintViolation,
    /// Some instruments could not be loaded; their ids, in the order of the run.
    PartialFailure { failed_instrument_ids: Vec<i32> },
    /// The storage could not be reached.
    StorageUnavailable,
}

} // verus!
