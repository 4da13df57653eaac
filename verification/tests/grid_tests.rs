use stock_timeseries::calendar::{CalendarDate, MIN_DAY_NUMBER};
use stock_timeseries::grid::create_sample_date;
use stock_timeseries::model::{Amount, PipelineError};

fn day(year: i32, month: u32, day: u32) -> CalendarDate {
    CalendarDate::from_ymd(year, month, day).unwrap()
}

#[test]
fn three_days_back_from_the_end_of_2024() {
    let (dates, prices) = create_sample_date(3, day(2024, 12, 31)).unwrap();
    assert_eq!(
        dates,
        vec![day(2024, 12, 31), day(2024, 12, 30), day(2024, 12, 29)]
    );
    assert_eq!(
        prices,
        vec![
            Amount { hundred_thousandths: 0 },
            Amount { hundred_thousandths: 1 },
            Amount { hundred_thousandths: 2 },
        ]
    );
}

#[test]
fn an_empty_grid_is_an_invalid_argument() {
    assert_eq!(
        create_sample_date(0, day(2024, 12, 31)),
        Err(PipelineError::InvalidArgument)
    );
}

#[test]
fn a_grid_that_leaves_the_calendar_is_an_invalid_argument() {
    let first = CalendarDate::from_day_number(MIN_DAY_NUMBER).unwrap();
    assert_eq!(
        create_sample_date(1, first),
        Ok((vec![first], vec![Amount { hundred_thousandths: 0 }]))
    );
    assert_eq!(
        create_sample_date(2, first),
        Err(PipelineError::InvalidArgument)
    );
    assert_eq!(
        create_sample_date(usize::MAX, day(2024, 12, 31)),
        Err(PipelineError::InvalidArgument)
    );
    let outside = CalendarDate { day_number: i32::MAX };
    assert_eq!(
        create_sample_date(1, outside),
        Err(PipelineError::InvalidArgument)
    );
}

#[test]
fn the_grid_steps_back_one_day_per_index() {
    let count = 2000;
    let anchor = day(2024, 12, 31);
    let (dates, prices) = create_sample_date(count, anchor).unwrap();
    assert_eq!(dates.len(), count);
    assert_eq!(prices.len(), count);
    assert_eq!(dates[0], anchor);
    let mut i = 1;
    while i < count {
        assert_eq!(dates[i].day_number(), dates[i - 1].day_number() - 1);
        assert!(dates[i].is_before(&dates[i - 1]));
        assert_eq!(prices[i].hundred_thousandths, i as i64);
        i += 1;
    }
    assert_eq!(dates[count - 1], day(2019, 7, 12));
}

#[test]
fn the_same_arguments_give_the_same_grid() {
    let first = create_sample_date(500, day(2024, 12, 31));
    let second = create_sample_date(500, day(2024, 12, 31));
    assert_eq!(first, second);
    assert_eq!(
        create_sample_date(0, day(2024, 12, 31)),
        create_sample_date(0, day(2024, 12, 31))
    );
}
