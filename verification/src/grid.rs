//! The grid generator: a date axis that steps back from an anchor date by one
//! day per index, and a price axis of the same length.

use crate::calendar::{in_calendar, CalendarDate};
use crate::model::{Amount, PipelineError};
use vstd::prelude::*;

verus! {

/// The date at index `i` of a grid anchored at `end_date`: `i` days before it.
pub open spec fn grid_date(end_date: CalendarDate, i: int) -> CalendarDate {
    CalendarDate { day_number: (end_date.day() - i) as i32 }
}

/// The price at index `i`: a linear ramp that starts at zero and rises by one
/// hundred-thousandth per step.
pub open spec fn ramp_price(i: int) -> Amount {
    Amount { hundred_thousandths: i as i64 }
}

/// The date axis of `n_prices` days that ends (at index 0) at `end_date`.
pub open spec fn date_grid(n_prices: nat, end_date: CalendarDate) -> Seq<CalendarDate> {
    Seq::new(n_prices, |i: int| grid_date(end_date, i))
}

/// The price axis of length `n_prices`.
pub open spec fn price_series(n_prices: nat) -> Seq<Amount> {
    Seq::new(n_prices, |i: int| ramp_price(i))
}

/// Whether a grid of `n_prices` days anchored at `end_date` exists: it is not
/// empty and all of its days lie in the calendar.
pub open spec fn grid_exists(n_prices: nat, end_date: CalendarDate) -> bool {
    n_prices > 0 && end_date.in_range() && in_calendar(end_date.day() - (n_prices - 1))
}

/// Whether each date of `dates` is exactly one day before the one in front of it.
pub open spec fn steps_back_daily(dates: Seq<CalendarDate>) -> bool {
    forall|i: int| 0 < i < dates.len() ==> (#[trigger] dates[i]).day() == dates[i - 1].day() - 1
}

/// Whether `dates` is strictly descending.
pub open spec fn strictly_descending(dates: Seq<CalendarDate>) -> bool {
    forall|i: int, j: int| 0 <= i < j < dates.len() ==> dates[i].day() > dates[j].day()
}

/// Whether `result` is what the generator owes for `n_prices` and `end_date`: the
/// two axes where the grid exists, and `InvalidArgument` where it does not.
pub open spec fn is_generated(
    n_prices: nat,
    end_date: CalendarDate,
    result: Result<(Vec<CalendarDate>, Vec<Amount>), PipelineError>,
) -> bool {
    match result {
        Ok(axes) => grid_exists(n_prices, end_date) && axes.0@ == date_grid(n_prices, end_date)
            && axes.1@ == price_series(n_prices),
        Err(e) => !grid_exists(n_prices, end_date) && e == PipelineError::InvalidArgument,
    }
}

/// Generates the date axis and the price axis of a population run.
///
/// Fails with `InvalidArgument` where `n_prices` is zero or the grid would leave
/// the calendar.
pub fn create_sample_date(n_prices: usize, end_date: CalendarDate) -> (r: Result<
    (Vec<CalendarDate>, Vec<Amount>),
    PipelineError,
>)
    ensures
        is_generated(n_prices as nat, end_date, r),
{
    if n_prices == 0 {
        return Err(PipelineError::InvalidArgument);
    }
    let last: u64 = (n_prices - 1) as u64;
    if end_date.days_before(last).is_none() {
        return Err(PipelineError::InvalidArgument);
    }
    let mut dates: Vec<CalendarDate> = Vec::new();
    let mut prices: Vec<Amount> = Vec::new();
    let mut i: usize = 0;
    while i < n_prices
        invariant
            0 <= i <= n_prices,
            grid_exists(n_prices as nat, end_date),
            dates@ == date_grid(i as nat, end_date),
            prices@ == price_series(i as nat),
        decreases n_prices - i,
    {
        match end_date.days_before(i as u64) {
            Some(date) => {
                dates.push(date);
                prices.push(Amount { hundred_thousandths: i as i64 });
            },
            None => {
                assert(false);
            },
        }
        i = i + 1;
        assert(dates@ =~= date_grid(i as nat, end_date));
        assert(prices@ =~= price_series(i as nat));
    }
    Ok((dates, prices))
}

/// Generation is deterministic: two results for the same arguments succeed or
/// fail together, with the same axes or the same error.
pub proof fn lemma_generation_is_deterministic(
    n_prices: nat,
    end_date: CalendarDate,
    first: Result<(Vec<CalendarDate>, Vec<Amount>), PipelineError>,
    second: Result<(Vec<CalendarDate>, Vec<Amount>), PipelineError>,
)
    requires
        is_generated(n_prices, end_date, first),
        is_generated(n_prices, end_date, second),
    ensures
        first is Ok <==> second is Ok,
        first matches Ok(a) ==> second matches Ok(b) && a.0@ == b.0@ && a.1@ == b.1@,
        first matches Err(e) ==> second == Err::<(Vec<CalendarDate>, Vec<Amount>), PipelineError>(e),
{
}

/// A generated grid has the length that was asked for, starts at the anchor,
/// steps back by exactly one day per index, and is strictly descending; the price
/// at an index is that index in hundred-thousandths.
pub proof fn lemma_grid_descends(n_prices: nat, end_date: CalendarDate)
    requires
        grid_exists(n_prices, end_date),
    ensures
        date_grid(n_prices, end_date).len() == n_prices,
        price_series(n_prices).len() == n_prices,
        date_grid(n_prices, end_date)[0] == end_date,
        forall|i: int|
            0 <= i < n_prices ==> (#[trigger] date_grid(n_prices, end_date)[i]).day()
                == end_date.day() - i,
        forall|i: int|
            0 <= i < n_prices ==> (#[trigger] price_series(n_prices)[i]).hundred_thousandths == i,
        steps_back_daily(date_grid(n_prices, end_date)),
        strictly_descending(date_grid(n_prices, end_date)),
{
}

} // verus!
