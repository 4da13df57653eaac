use stock_timeseries::model::{InsertableStockDefinition, PipelineError, StockDefinition};
use stock_timeseries::registry::{copy_rows, select_by_id, select_by_ticker, Registry};

fn row(id: i32, ticker: &str) -> StockDefinition {
    StockDefinition {
        id,
        ticker: ticker.to_string(),
    }
}

fn pair(d: &StockDefinition) -> (i32, String) {
    (d.id, d.ticker.clone())
}

#[test]
fn new_keeps_the_ticker() {
    let stock = InsertableStockDefinition::new("42".to_string());
    assert_eq!(stock.ticker, "42");
}

#[test]
fn ensure_gives_ids_in_order_of_registration() {
    let mut registry = Registry::new();
    assert_eq!(registry.ensure("A".to_string()), Ok(1));
    assert_eq!(registry.ensure("B".to_string()), Ok(2));
    assert_eq!(registry.ensure("C".to_string()), Ok(3));
    assert_eq!(registry.next_id, 4);
    let all: Vec<(i32, String)> = registry.list_all().iter().map(pair).collect();
    assert_eq!(
        all,
        vec![
            (1, "A".to_string()),
            (2, "B".to_string()),
            (3, "C".to_string())
        ]
    );
}

#[test]
fn ensure_twice_gives_the_same_id_and_one_row() {
    let mut registry = Registry::new();
    assert_eq!(registry.ensure("A".to_string()), Ok(1));
    let first = registry.ensure("X".to_string());
    let second = registry.ensure("X".to_string());
    assert_eq!(first, Ok(2));
    assert_eq!(second, Ok(2));
    assert_eq!(registry.rows.len(), 2);
    assert_eq!(registry.next_id, 3);
    let with_x = registry.rows.iter().filter(|d| d.ticker == "X").count();
    assert_eq!(with_x, 1);
}

#[test]
fn ensure_fails_when_no_id_is_left() {
    let mut registry = Registry {
        rows: vec![row(7, "A")],
        next_id: i32::MAX,
    };
    assert_eq!(
        registry.ensure("B".to_string()),
        Err(PipelineError::StorageUnavailable)
    );
    assert_eq!(registry.rows.len(), 1);
    assert_eq!(registry.next_id, i32::MAX);
    assert_eq!(registry.ensure("A".to_string()), Ok(7));
}

#[test]
fn list_without_a_filter_gives_every_instrument() {
    let mut registry = Registry::new();
    assert_eq!(registry.list(None).map(|v| v.len()), Ok(0));
    registry.ensure("A".to_string()).unwrap();
    registry.ensure("B".to_string()).unwrap();
    let all = registry.list(None).unwrap();
    let pairs: Vec<(i32, String)> = all.iter().map(pair).collect();
    assert_eq!(pairs, vec![(1, "A".to_string()), (2, "B".to_string())]);
}

#[test]
fn list_with_a_ticker_gives_one_instrument_or_not_found() {
    let mut registry = Registry::new();
    registry.ensure("A".to_string()).unwrap();
    registry.ensure("B".to_string()).unwrap();
    let b = "B".to_string();
    let one = registry.list(Some(&b)).unwrap();
    assert_eq!(one.len(), 1);
    assert_eq!(pair(&one[0]), (2, "B".to_string()));
    let missing = "Z".to_string();
    assert_eq!(
        registry.list(Some(&missing)).map(|v| v.len()),
        Err(PipelineError::NotFound)
    );
    let empty = Registry::new();
    assert_eq!(
        empty.list(Some(&b)).map(|v| v.len()),
        Err(PipelineError::NotFound)
    );
}

#[test]
fn get_by_id_and_by_ticker() {
    let mut registry = Registry::new();
    registry.ensure("A".to_string()).unwrap();
    registry.ensure("B".to_string()).unwrap();
    assert_eq!(
        registry.get_by_id(2).map(|d| pair(&d)),
        Ok((2, "B".to_string()))
    );
    assert_eq!(
        registry.get_by_id(3).map(|d| pair(&d)),
        Err(PipelineError::NotFound)
    );
    assert_eq!(
        registry.get_by_ticker(&"A".to_string()).map(|d| pair(&d)),
        Ok((1, "A".to_string()))
    );
    assert_eq!(
        registry
            .get_by_ticker(&"unknown".to_string())
            .map(|d| pair(&d)),
        Err(PipelineError::NotFound)
    );
}

#[test]
fn select_by_ticker_tells_none_one_and_many_apart() {
    let rows = vec![row(1, "A"), row(2, "B"), row(3, "A")];
    assert_eq!(
        select_by_ticker(&rows, &"B".to_string()).map(|d| pair(&d)),
        Ok((2, "B".to_string()))
    );
    assert_eq!(
        select_by_ticker(&rows, &"A".to_string()).map(|d| pair(&d)),
        Err(PipelineError::AmbiguousResult)
    );
    assert_eq!(
        select_by_ticker(&rows, &"C".to_string()).map(|d| pair(&d)),
        Err(PipelineError::NotFound)
    );
    assert_eq!(
        select_by_ticker(&Vec::new(), &"A".to_string()).map(|d| pair(&d)),
        Err(PipelineError::NotFound)
    );
}

#[test]
fn select_by_id_gives_the_first_row_with_the_id() {
    let rows = vec![row(1, "A"), row(2, "B"), row(2, "C")];
    assert_eq!(
        select_by_id(&rows, 2).map(|d| pair(&d)),
        Ok((2, "B".to_string()))
    );
    assert_eq!(
        select_by_id(&rows, 9).map(|d| pair(&d)),
        Err(PipelineError::NotFound)
    );
}

#[test]
fn copy_rows_keeps_order_and_content() {
    let rows = vec![row(5, "E"), row(1, "A")];
    let copy: Vec<(i32, String)> = copy_rows(&rows).iter().map(pair).collect();
    assert_eq!(copy, vec![(5, "E".to_string()), (1, "A".to_string())]);
    assert_eq!(pair(&rows[0].duplicate()), (5, "E".to_string()));
}

#[test]
fn register_is_ensure_on_the_ticker() {
    let mut registry = Registry::new();
    assert_eq!(
        registry.register(InsertableStockDefinition::new("A".to_string())),
        Ok(1)
    );
    assert_eq!(
        registry.register(InsertableStockDefinition::new("B".to_string())),
        Ok(2)
    );
    assert_eq!(
        registry.register(InsertableStockDefinition::new("A".to_string())),
        Ok(1)
    );
    assert_eq!(registry.rows, vec![row(1, "A"), row(2, "B")]);
}

#[test]
fn a_ticker_that_occurs_twice_is_ambiguous() {
    let broken = Registry {
        rows: vec![row(1, "A"), row(2, "A"), row(3, "B")],
        next_id: 4,
    };
    let a = "A".to_string();
    assert_eq!(
        broken.get_by_ticker(&a),
        Err(PipelineError::AmbiguousResult)
    );
    assert_eq!(broken.list(Some(&a)), Err(PipelineError::AmbiguousResult));
    assert_eq!(broken.get_by_ticker(&"B".to_string()), Ok(row(3, "B")));
    assert_eq!(broken.get_by_id(2), Ok(row(2, "A")));
}

#[test]
fn seed_registers_each_ticker_once() {
    let mut registry = Registry::new();
    let tickers: Vec<String> = (0..5).map(|idx: i32| (idx % 3).to_string()).collect();
    registry.seed(&tickers);
    assert_eq!(registry.rows, vec![row(1, "0"), row(2, "1"), row(3, "2")]);
    assert_eq!(registry.next_id, 4);
    registry.seed(&tickers);
    assert_eq!(registry.rows.len(), 3);
    assert_eq!(registry.next_id, 4);

    let mut full = Registry {
        rows: vec![row(7, "A")],
        next_id: i32::MAX,
    };
    full.seed(&vec!["B".to_string(), "A".to_string()]);
    assert_eq!(full.rows, vec![row(7, "A")]);
}
