//! The store: the registry and the two price tables, with the constraints that
//! an insert must meet.

use crate::batch::InsertBatch;
use crate::model::{Instrument, PipelineError, SinkId, StockPrice};
use crate::registry::{has_id, Registry};
use crate::sink::{get_series, series_of};
use vstd::prelude::*;

verus! {

/// Whether a sink takes a batch: its columns have one length and every id in it
/// belongs to a registered instrument.
pub open spec fn accepts(registry: Seq<Instrument>, batch: &InsertBatch) -> bool {
    &&& batch.aligned()
    &&& forall|k: int|
        0 <= k < batch.instrument_ids@.len() ==> has_id(
            registry,
            (#[trigger] batch.instrument_ids@[k]) as int,
        )
}

/// The registry and the two sinks. Each sink holds its rows in the order of
/// their insertion.
pub struct Store {
    pub registry: Registry,
    pub timeseries: Vec<StockPrice>,
    pub timescale: Vec<StockPrice>,
}

impl Store {
    /// The rows of a sink.
    pub open spec fn table(&self, sink: SinkId) -> Seq<StockPrice> {
        match sink {
            SinkId::Timeseries => self.timeseries@,
            SinkId::Timescale => self.timescale@,
        }
    }

    /// The store's invariant: that of its registry.
    pub open spec fn wf(&self) -> bool {
        self.registry.wf()
    }

    /// A store without instruments and without prices.
    pub fn new() -> (r: Store)
        ensures
            r.wf(),
            r.registry@.len() == 0,
            r.registry.next_id == 1,
            r.table(SinkId::Timeseries).len() == 0,
            r.table(SinkId::Timescale).len() == 0,
    {
        Store { registry: Registry::new(), timeseries: Vec::new(), timescale: Vec::new() }
    }

    /// Whether an instrument with the given id is registered.
    pub fn is_registered(&self, id: i32) -> (r: bool)
        ensures
            r == has_id(self.registry@, id as int),
    {
        let ghost model = self.registry@;
        let mut i: usize = 0;
        while i < self.registry.rows.len()
            invariant
                0 <= i <= self.registry.rows.len(),
                model == self.registry@,
                forall|j: int| 0 <= j < i ==> (#[trigger] model[j]).id != id,
            decreases self.registry.rows.len() - i,
        {
            if self.registry.rows[i].id == id {
                assert(model[i as int].id == id);
                return true;
            }
            i = i + 1;
        }
        false
    }

    /// Whether the sinks of this store take the batch.
    pub fn check_batch(&self, batch: &InsertBatch) -> (r: bool)
        ensures
            r == accepts(self.registry@, batch),
    {
        if !batch.is_aligned() {
            return false;
        }
        let mut k: usize = 0;
        while k < batch.instrument_ids.len()
            invariant
                0 <= k <= batch.instrument_ids.len(),
                forall|j: int|
                    0 <= j < k ==> has_id(
                        self.registry@,
                        (#[trigger] batch.instrument_ids@[j]) as int,
                    ),
            decreases batch.instrument_ids.len() - k,
        {
            let id = batch.instrument_ids[k];
            let known = k > 0 && batch.instrument_ids[k - 1] == id;
            if !known && !self.is_registered(id) {
                return false;
            }
            k = k + 1;
        }
        true
    }

    /// Inserts the rows of a batch into a sink, in one step.
    ///
    /// A batch that the sink takes is appended row by row, in the order of its
    /// columns. Any other batch fails with `ConstraintViolation` and leaves the
    /// sink as it was. The registry and the other sink never change.
    pub fn insert_batch(&mut self, sink: SinkId, batch: &InsertBatch) -> (r: Result<
        (),
        PipelineError,
    >)
        ensures
            final(self).registry == old(self).registry,
            forall|other: SinkId| other != sink ==> final(self).table(other) == old(self).table(other),
            accepts(old(self).registry@, batch) ==> r is Ok && final(self).table(sink) == old(
                self,
            ).table(sink) + batch.rows(),
            !accepts(old(self).registry@, batch) ==> r == Err::<(), PipelineError>(
                PipelineError::ConstraintViolation,
            ) && final(self).table(sink) == old(self).table(sink),
    {
        if !self.check_batch(batch) {
            return Err(PipelineError::ConstraintViolation);
        }
        let ghost before = self.table(sink);
        let mut k: usize = 0;
        while k < batch.dates.len()
            invariant
                0 <= k <= batch.dates.len(),
                batch.aligned(),
                self.registry == old(self).registry,
                forall|other: SinkId| other != sink ==> self.table(other) == old(self).table(other),
                before == old(self).table(sink),
                self.table(sink) == before + batch.rows().take(k as int),
            decreases batch.dates.len() - k,
        {
            let row = StockPrice {
                stock_id: batch.instrument_ids[k],
                dt: batch.dates[k],
                close: batch.values[k],
            };
            match sink {
                SinkId::Timeseries => self.timeseries.push(row),
                SinkId::Timescale => self.timescale.push(row),
            }
            k = k + 1;
            assert(self.table(sink) =~= before + batch.rows().take(k as int));
        }
        assert(batch.rows().take(batch.dates.len() as int) =~= batch.rows());
        Ok(())
    }

    /// The series of an instrument in a sink, in ascending order of date; empty
    /// where the sink holds no row for the id.
    pub fn get_series(&self, stock_id: i32, sink: SinkId) -> (r: Vec<StockPrice>)
        ensures
            r@ == series_of(self.table(sink), stock_id),
    {
        match sink {
            SinkId::Timeseries => get_series(&self.timeseries, stock_id),
            SinkId::Timescale => get_series(&self.timescale, stock_id),
        }
    }
}

} // verus!
