//! The registry of instruments: each ticker is registered once and keeps the id
//! it was given.

use crate::model::{InsertableStockDefinition, Instrument, PipelineError, StockDefinition};
use vstd::prelude::*;

verus! {

/// The models of a sequence of registry rows.
pub open spec fn instruments_of(rows: Seq<StockDefinition>) -> Seq<Instrument> {
    rows.map_values(|d: StockDefinition| d@)
}

/// Whether some row of `rows` carries `ticker`.
pub open spec fn has_ticker(rows: Seq<Instrument>, ticker: Seq<char>) -> bool {
    exists|i: int| 0 <= i < rows.len() && (#[trigger] rows[i]).ticker == ticker
}

/// Whether some row of `rows` carries `id`.
pub open spec fn has_id(rows: Seq<Instrument>, id: int) -> bool {
    exists|i: int| 0 <= i < rows.len() && (#[trigger] rows[i]).id == id
}

/// Whether the row at `i` is the only row of `rows` that carries `ticker`.
pub open spec fn only_match(rows: Seq<Instrument>, ticker: Seq<char>, i: int) -> bool {
    &&& 0 <= i < rows.len()
    &&& rows[i].ticker == ticker
    &&& forall|j: int| 0 <= j < rows.len() && (#[trigger] rows[j]).ticker == ticker ==> j == i
}

/// Whether the row at `i` is the first row of `rows` that carries `id`.
pub open spec fn first_with_id(rows: Seq<Instrument>, id: int, i: int) -> bool {
    &&& 0 <= i < rows.len()
    &&& rows[i].id == id
    &&& forall|j: int| 0 <= j < i ==> (#[trigger] rows[j]).id != id
}

/// Whether two different rows of `rows` carry `ticker`.
pub open spec fn matches_twice(rows: Seq<Instrument>, ticker: Seq<char>) -> bool {
    exists|i: int, j: int|
        0 <= i < j < rows.len() && (#[trigger] rows[i]).ticker == ticker && (#[trigger] rows[j]).ticker
            == ticker
}

/// Whether no ticker and no id occurs twice in `rows`, ids rising with the order
/// of registration.
pub open spec fn registry_consistent(rows: Seq<Instrument>) -> bool {
    &&& forall|i: int, j: int|
        0 <= i < j < rows.len() ==> (#[trigger] rows[i]).ticker != (#[trigger] rows[j]).ticker
    &&& forall|i: int, j: int| 0 <= i < j < rows.len() ==> (#[trigger] rows[i]).id < (#[trigger] rows[j]).id
}

/// The id of a row of `rows` that carries `ticker`.
pub open spec fn id_in(rows: Seq<Instrument>, ticker: Seq<char>) -> int
    recommends
        has_ticker(rows, ticker),
{
    let i = choose|i: int| 0 <= i < rows.len() && (#[trigger] rows[i]).ticker == ticker;
    rows[i].id
}

/// Whether registering `ticker` adds a row: it is absent and an id is left.
pub open spec fn ensure_adds(rows: Seq<Instrument>, next_id: int, ticker: Seq<char>) -> bool {
    !has_ticker(rows, ticker) && next_id < i32::MAX
}

/// The rows of the registry after `ticker` was registered.
pub open spec fn ensured_rows(rows: Seq<Instrument>, next_id: int, ticker: Seq<char>) -> Seq<
    Instrument,
> {
    if ensure_adds(rows, next_id, ticker) {
        rows.push(Instrument { id: next_id, ticker })
    } else {
        rows
    }
}

/// The next free id after `ticker` was registered.
pub open spec fn ensured_next_id(rows: Seq<Instrument>, next_id: int, ticker: Seq<char>) -> int {
    if ensure_adds(rows, next_id, ticker) {
        next_id + 1
    } else {
        next_id
    }
}

/// The id that registering `ticker` reports, or `None` where the ticker is new
/// and no id is left.
pub open spec fn ensured_id(rows: Seq<Instrument>, next_id: int, ticker: Seq<char>) -> Option<
    int,
> {
    if has_ticker(rows, ticker) {
        Some(id_in(rows, ticker))
    } else if next_id < i32::MAX {
        Some(next_id)
    } else {
        None
    }
}

/// The rows and the next free id of a registry after each of `tickers` was
/// registered, in order. A ticker for which no id is left is passed over.
pub open spec fn registered_all(rows: Seq<Instrument>, next_id: int, tickers: Seq<Seq<char>>) -> (
    Seq<Instrument>,
    int,
)
    decreases tickers.len(),
{
    if tickers.len() == 0 {
        (rows, next_id)
    } else {
        let before = registered_all(rows, next_id, tickers.drop_last());
        (
            ensured_rows(before.0, before.1, tickers.last()),
            ensured_next_id(before.0, before.1, tickers.last()),
        )
    }
}

/// The tickers of a list of strings.
pub open spec fn tickers_of(tickers: Seq<String>) -> Seq<Seq<char>> {
    tickers.map_values(|t: String| t@)
}

/// The registry's invariant over its model: tickers and ids are unique, and
/// every id that was given out is positive and below the next one.
pub open spec fn registry_wf(rows: Seq<Instrument>, next_id: int) -> bool {
    &&& registry_consistent(rows)
    &&& 1 <= next_id <= i32::MAX
    &&& forall|i: int| 0 <= i < rows.len() ==> 0 < (#[trigger] rows[i]).id < next_id
}

/// In consistent rows, the id of a ticker is the id of any row that carries it.
pub proof fn lemma_id_in(rows: Seq<Instrument>, ticker: Seq<char>, i: int)
    requires
        registry_consistent(rows),
        0 <= i < rows.len(),
        rows[i].ticker == ticker,
    ensures
        has_ticker(rows, ticker),
        id_in(rows, ticker) == rows[i].id,
        only_match(rows, ticker, i),
{
    let k = choose|k: int| 0 <= k < rows.len() && (#[trigger] rows[k]).ticker == ticker;
    if k < i {
        assert(rows[k].ticker != rows[i].ticker);
    } else if i < k {
        assert(rows[i].ticker != rows[k].ticker);
    }
    assert forall|j: int| 0 <= j < rows.len() && (#[trigger] rows[j]).ticker == ticker implies j
        == i by {
        if j < i {
            assert(rows[j].ticker != rows[i].ticker);
        } else if i < j {
            assert(rows[i].ticker != rows[j].ticker);
        }
    }
}

/// Registering a ticker twice is the same as registering it once: the second
/// call reports the id that the first reported and changes nothing, and the
/// registry then holds exactly one row for the ticker.
pub proof fn lemma_ensure_idempotent(rows: Seq<Instrument>, next_id: int, ticker: Seq<char>)
    requires
        registry_wf(rows, next_id),
        ensured_id(rows, next_id, ticker) is Some,
    ensures
        ({
            let once = ensured_rows(rows, next_id, ticker);
            let next = ensured_next_id(rows, next_id, ticker);
            &&& registry_wf(once, next)
            &&& ensured_rows(once, next, ticker) == once
            &&& ensured_next_id(once, next, ticker) == next
            &&& ensured_id(once, next, ticker) == ensured_id(rows, next_id, ticker)
            &&& exists|i: int| only_match(once, ticker, i)
        }),
{
    let once = ensured_rows(rows, next_id, ticker);
    let next = ensured_next_id(rows, next_id, ticker);
    if has_ticker(rows, ticker) {
        let i = choose|i: int| 0 <= i < rows.len() && (#[trigger] rows[i]).ticker == ticker;
        lemma_id_in(rows, ticker, i);
    } else {
        let last = rows.len() as int;
        assert(once[last].ticker == ticker);
        assert(registry_consistent(once));
        lemma_id_in(once, ticker, last);
    }
}

/// Picks the one row with the given ticker out of the rows that a lookup
/// returned.
///
/// Fails with `NotFound` where no row carries the ticker, and with
/// `AmbiguousResult` where more than one does.
pub fn select_by_ticker(rows: &Vec<StockDefinition>, ticker: &String) -> (r: Result<
    StockDefinition,
    PipelineError,
>)
    ensures
        match r {
            Ok(found) => exists|i: int|
                only_match(instruments_of(rows@), ticker@, i) && found@ == instruments_of(
                    rows@,
                )[i],
            Err(PipelineError::NotFound) => !has_ticker(instruments_of(rows@), ticker@),
            Err(PipelineError::AmbiguousResult) => matches_twice(instruments_of(rows@), ticker@),
            Err(_) => false,
        },
{
    let ghost model = instruments_of(rows@);
    let mut first: Option<usize> = None;
    let mut i: usize = 0;
    while i < rows.len()
        invariant
            0 <= i <= rows.len(),
            model == instruments_of(rows@),
            first is None ==> forall|j: int| 0 <= j < i ==> (#[trigger] model[j]).ticker != ticker@,
            first matches Some(k) ==> k < i && model[k as int].ticker == ticker@ && forall|j: int|
                0 <= j < i && (#[trigger] model[j]).ticker == ticker@ ==> j == k,
        decreases rows.len() - i,
    {
        if rows[i].ticker == *ticker {
            match first {
                Some(k) => {
                    assert(model[k as int].ticker == ticker@ && model[i as int].ticker == ticker@);
                    return Err(PipelineError::AmbiguousResult);
                },
                None => {
                    first = Some(i);
                },
            }
        }
        i = i + 1;
    }
    match first {
        Some(k) => {
            let found = rows[k].duplicate();
            assert(only_match(model, ticker@, k as int));
            Ok(found)
        },
        None => Err(PipelineError::NotFound),
    }
}

/// Picks the row with the given id out of registry rows.
///
/// Returns the first such row, and fails with `NotFound` where there is none.
pub fn select_by_id(rows: &Vec<StockDefinition>, id: i32) -> (r: Result<
    StockDefinition,
    PipelineError,
>)
    ensures
        match r {
            Ok(found) => exists|i: int|
                first_with_id(instruments_of(rows@), id as int, i) && found@ == instruments_of(
                    rows@,
                )[i],
            Err(PipelineError::NotFound) => !has_id(instruments_of(rows@), id as int),
            Err(_) => false,
        },
{
    let ghost model = instruments_of(rows@);
    let mut i: usize = 0;
    while i < rows.len()
        invariant
            0 <= i <= rows.len(),
            model == instruments_of(rows@),
            forall|j: int| 0 <= j < i ==> (#[trigger] model[j]).id != id,
        decreases rows.len() - i,
    {
        if rows[i].id == id {
            let found = rows[i].duplicate();
            assert(first_with_id(model, id as int, i as int) && found@ == model[i as int]);
            return Ok(found);
        }
        i = i + 1;
    }
    Err(PipelineError::NotFound)
}

/// A copy of registry rows, in their order.
pub fn copy_rows(rows: &Vec<StockDefinition>) -> (r: Vec<StockDefinition>)
    ensures
        instruments_of(r@) == instruments_of(rows@),
{
    let mut out: Vec<StockDefinition> = Vec::new();
    let mut i: usize = 0;
    while i < rows.len()
        invariant
            0 <= i <= rows.len(),
            out@.len() == i,
            forall|j: int| 0 <= j < i ==> (#[trigger] out@[j])@ == rows@[j]@,
        decreases rows.len() - i,
    {
        out.push(rows[i].duplicate());
        i = i + 1;
    }
    assert(instruments_of(out@) =~= instruments_of(rows@));
    out
}

/// The registry: the instruments in the order of their registration, and the id
/// that the next new ticker will get.
pub struct Registry {
    pub rows: Vec<StockDefinition>,
    pub next_id: i32,
}

impl View for Registry {
    type V = Seq<Instrument>;

    open spec fn view(&self) -> Seq<Instrument> {
        instruments_of(self.rows@)
    }
}

impl Registry {
    /// The registry's invariant: tickers and ids are unique, and every id that was
    /// given out is positive and below the next one.
    pub open spec fn wf(&self) -> bool {
        registry_wf(self@, self.next_id as int)
    }

    /// The id under which `ticker` is registered.
    pub open spec fn id_of(&self, ticker: Seq<char>) -> int
        recommends
            has_ticker(self@, ticker),
    {
        id_in(self@, ticker)
    }

    /// An empty registry, whose first id will be 1.
    pub fn new() -> (r: Registry)
        ensures
            r.wf(),
            r@.len() == 0,
            r.next_id == 1,
    {
        Registry { rows: Vec::new(), next_id: 1 }
    }

    /// Registers `ticker` unless it is registered already, and returns its id.
    ///
    /// A ticker that is present keeps its id and the registry stays as it is. A
    /// new ticker gets the next id and is added at the end. Fails with
    /// `StorageUnavailable`, changing nothing, where the ticker is new and no id is
    /// left to give.
    pub fn ensure(&mut self, ticker: String) -> (r: Result<i32, PipelineError>)
        requires
            old(self).wf(),
        ensures
            final(self).wf(),
            final(self)@ == ensured_rows(old(self)@, old(self).next_id as int, ticker@),
            final(self).next_id == ensured_next_id(old(self)@, old(self).next_id as int, ticker@),
            match ensured_id(old(self)@, old(self).next_id as int, ticker@) {
                Some(id) => r == Ok::<i32, PipelineError>(id as i32) && has_ticker(
                    final(self)@,
                    ticker@,
                ) && final(self).id_of(ticker@) == id,
                None => r == Err::<i32, PipelineError>(PipelineError::StorageUnavailable),
            },
    {
        let ghost before = self@;
        let mut i: usize = 0;
        while i < self.rows.len()
            invariant
                0 <= i <= self.rows.len(),
                self@ == before,
                self.wf(),
                *self == *old(self),
                forall|j: int| 0 <= j < i ==> (#[trigger] before[j]).ticker != ticker@,
            decreases self.rows.len() - i,
        {
            if self.rows[i].ticker == ticker {
                let id = self.rows[i].id;
                proof {
                    assert(before[i as int].ticker == ticker@);
                    lemma_id_in(before, ticker@, i as int);
                }
                return Ok(id);
            }
            i = i + 1;
        }
        assert(!has_ticker(before, ticker@));
        if self.next_id == i32::MAX {
            return Err(PipelineError::StorageUnavailable);
        }
        let id = self.next_id;
        let ghost added = Instrument { id: id as int, ticker: ticker@ };
        self.rows.push(StockDefinition { id, ticker });
        self.next_id = id + 1;
        proof {
            assert(self@ =~= before.push(added));
            assert(self@[before.len() as int].ticker == ticker@);
            lemma_id_in(self@, ticker@, before.len() as int);
        }
        Ok(id)
    }

    /// Registers the ticker of `stock` unless it is registered already, and
    /// returns the registered instrument's id, as `ensure` does.
    pub fn register(&mut self, stock: InsertableStockDefinition) -> (r: Result<i32, PipelineError>)
        requires
            old(self).wf(),
        ensures
            final(self).wf(),
            final(self)@ == ensured_rows(old(self)@, old(self).next_id as int, stock@),
            final(self).next_id == ensured_next_id(old(self)@, old(self).next_id as int, stock@),
            match ensured_id(old(self)@, old(self).next_id as int, stock@) {
                Some(id) => r == Ok::<i32, PipelineError>(id as i32),
                None => r == Err::<i32, PipelineError>(PipelineError::StorageUnavailable),
            },
    {
        self.ensure(stock.ticker)
    }

    /// Registers each of `tickers`, in order, as `ensure` does. A ticker for which
    /// no id is left is passed over and the others are still registered.
    pub fn seed(&mut self, tickers: &Vec<String>)
        requires
            old(self).wf(),
        ensures
            final(self).wf(),
            final(self)@ == registered_all(
                old(self)@,
                old(self).next_id as int,
                tickers_of(tickers@),
            ).0,
            final(self).next_id == registered_all(
                old(self)@,
                old(self).next_id as int,
                tickers_of(tickers@),
            ).1,
    {
        let ghost all = tickers_of(tickers@);
        let mut i: usize = 0;
        assert(all.take(0) =~= Seq::<Seq<char>>::empty());
        while i < tickers.len()
            invariant
                0 <= i <= tickers.len(),
                all == tickers_of(tickers@),
                self.wf(),
                self@ == registered_all(old(self)@, old(self).next_id as int, all.take(i as int)).0,
                self.next_id == registered_all(
                    old(self)@,
                    old(self).next_id as int,
                    all.take(i as int),
                ).1,
            decreases tickers.len() - i,
        {
            proof {
                assert(all.take(i + 1).drop_last() =~= all.take(i as int));
                assert(all.take(i + 1).last() == tickers@[i as int]@);
            }
            let _ = self.ensure(tickers[i].clone());
            i = i + 1;
        }
        assert(all.take(tickers.len() as int) =~= all);
    }

    /// Every instrument, in the order of registration.
    pub fn list_all(&self) -> (r: Vec<StockDefinition>)
        ensures
            instruments_of(r@) == self@,
    {
        copy_rows(&self.rows)
    }

    /// The instruments that `filter` admits: all of them without a ticker, and
    /// with one the single instrument that carries it.
    ///
    /// Fails with `NotFound` where a ticker is given and no instrument carries it,
    /// and with `AmbiguousResult` where more than one does, which a consistent
    /// registry rules out.
    pub fn list(&self, filter: Option<&String>) -> (r: Result<Vec<StockDefinition>, PipelineError>)
        ensures
            match filter {
                None => r matches Ok(all) && instruments_of(all@) == self@,
                Some(ticker) => match r {
                    Ok(one) => one@.len() == 1 && exists|i: int|
                        only_match(self@, ticker@, i) && one@[0]@ == self@[i],
                    Err(PipelineError::NotFound) => !has_ticker(self@, ticker@),
                    Err(PipelineError::AmbiguousResult) => matches_twice(self@, ticker@)
                        && !self.wf(),
                    Err(_) => false,
                },
            },
    {
        match filter {
            None => Ok(self.list_all()),
            Some(ticker) => match self.get_by_ticker(ticker) {
                Ok(found) => {
                    let mut one: Vec<StockDefinition> = Vec::new();
                    one.push(found);
                    Ok(one)
                },
                Err(e) => Err(e),
            },
        }
    }

    /// The instrument with the given id; fails with `NotFound` where there is none.
    pub fn get_by_id(&self, id: i32) -> (r: Result<StockDefinition, PipelineError>)
        ensures
            match r {
                Ok(found) => exists|i: int| first_with_id(self@, id as int, i) && found@ == self@[i],
                Err(PipelineError::NotFound) => !has_id(self@, id as int),
                Err(_) => false,
            },
    {
        let r = select_by_id(&self.rows, id);
        proof {
            if r is Ok {
                let found = r->Ok_0;
                let i = choose|i: int|
                    first_with_id(instruments_of(self.rows@), id as int, i) && found@
                        == instruments_of(self.rows@)[i];
                assert(first_with_id(self@, id as int, i) && found@ == self@[i]);
            }
        }
        r
    }

    /// The instrument with the given ticker.
    ///
    /// Fails with `NotFound` where no instrument carries the ticker, and with
    /// `AmbiguousResult` where more than one does, which a consistent registry
    /// rules out.
    pub fn get_by_ticker(&self, ticker: &String) -> (r: Result<StockDefinition, PipelineError>)
        ensures
            match r {
                Ok(found) => exists|i: int| only_match(self@, ticker@, i) && found@ == self@[i],
                Err(PipelineError::NotFound) => !has_ticker(self@, ticker@),
                Err(PipelineError::AmbiguousResult) => matches_twice(self@, ticker@) && !self.wf(),
                Err(_) => false,
            },
            self.wf() ==> (r matches Ok(found) ==> found@.id == self.id_of(ticker@)),
    {
        let r = select_by_ticker(&self.rows, ticker);
        proof {
            if self.wf() && r is Ok {
                let found = r->Ok_0;
                let i = choose|i: int|
                    only_match(self@, ticker@, i) && found@ == instruments_of(self.rows@)[i];
                lemma_id_in(self@, ticker@, i);
            }
            if self.wf() && matches_twice(self@, ticker@) {
                let (i, j) = choose|i: int, j: int|
                    0 <= i < j < self@.len() && (#[trigger] self@[i]).ticker == ticker@ && (
                    #[trigger] self@[j]).ticker == ticker@;
                assert(self@[i].ticker != self@[j].ticker);
            }
        }
        r
    }
}

} // verus!
