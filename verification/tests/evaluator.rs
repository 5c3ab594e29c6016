use buy_low::evaluator::{evaluate, find_worst_performance, lookup_price, worst_performer};
use buy_low::model::{EngineError, PerformanceRecord, PriceSample, Quote};

fn quote(symbol: &str, price: u64) -> Quote {
    Quote { symbol: symbol.to_string(), price }
}

fn quotes(entries: &[(&str, u64)]) -> Vec<Quote> {
    entries.iter().map(|(symbol, price)| quote(symbol, *price)).collect()
}

fn rec(symbol: &str, baseline_price: u64, current_price: u64) -> PerformanceRecord {
    PerformanceRecord::from_sample(PriceSample {
        symbol: symbol.to_string(),
        baseline_price,
        current_price,
    })
    .unwrap()
}

#[test]
fn lookup_price_finds_the_symbol() {
    let q = quotes(&[("AAA", 90), ("BBB", 55)]);
    assert_eq!(lookup_price(&q, &"AAA".to_string()), Some(90));
    assert_eq!(lookup_price(&q, &"BBB".to_string()), Some(55));
}

#[test]
fn lookup_price_of_an_unknown_symbol() {
    let q = quotes(&[("AAA", 90), ("BBB", 55)]);
    assert_eq!(lookup_price(&q, &"CCC".to_string()), None);
    assert_eq!(lookup_price(&q, &"AA".to_string()), None);
    assert_eq!(lookup_price(&q, &"".to_string()), None);
    assert_eq!(lookup_price(&Vec::new(), &"AAA".to_string()), None);
}

#[test]
fn lookup_price_takes_the_first_of_two_quotes() {
    let q = quotes(&[("BBB", 1), ("AAA", 90), ("AAA", 91)]);
    assert_eq!(lookup_price(&q, &"AAA".to_string()), Some(90));
}

#[test]
fn lookup_price_tells_upper_from_lower_case() {
    let q = quotes(&[("aaa", 7)]);
    assert_eq!(lookup_price(&q, &"AAA".to_string()), None);
}

#[test]
fn evaluate_gives_one_record_for_each_symbol_in_order() {
    let baseline = quotes(&[("AAA", 100), ("BBB", 50)]);
    let current = quotes(&[("AAA", 90), ("BBB", 55)]);
    let records = evaluate(&baseline, &current).unwrap();
    assert_eq!(records, vec![rec("AAA", 100, 90), rec("BBB", 50, 55)]);
    assert_eq!(records[0].percent_change, -1000);
    assert_eq!(records[1].percent_change, 1000);
}

#[test]
fn evaluate_reads_current_prices_in_any_order_and_ignores_others() {
    let baseline = quotes(&[("AAA", 100), ("BBB", 50)]);
    let current = quotes(&[("ZZZ", 1), ("BBB", 55), ("YYY", 2), ("AAA", 90)]);
    let records = evaluate(&baseline, &current).unwrap();
    assert_eq!(records, vec![rec("AAA", 100, 90), rec("BBB", 50, 55)]);
}

#[test]
fn evaluate_of_an_empty_watchlist() {
    let records = evaluate(&Vec::new(), &quotes(&[("AAA", 90)])).unwrap();
    assert!(records.is_empty());
}

#[test]
fn evaluate_keeps_a_symbol_that_the_watchlist_names_twice() {
    let baseline = quotes(&[("AAA", 100), ("AAA", 200)]);
    let current = quotes(&[("AAA", 90)]);
    let records = evaluate(&baseline, &current).unwrap();
    assert_eq!(records, vec![rec("AAA", 100, 90), rec("AAA", 200, 90)]);
}

#[test]
fn evaluate_fails_on_a_missing_price() {
    let baseline = quotes(&[("AAA", 100), ("BBB", 50)]);
    let current = quotes(&[("AAA", 90)]);
    assert_eq!(evaluate(&baseline, &current), Err(EngineError::MissingPrice { position: 1 }));
}

#[test]
fn evaluate_fails_on_a_baseline_of_zero() {
    let baseline = quotes(&[("AAA", 100), ("BBB", 0), ("CCC", 5)]);
    let current = quotes(&[("AAA", 90), ("BBB", 55), ("CCC", 5)]);
    assert_eq!(evaluate(&baseline, &current), Err(EngineError::InvalidBaseline { position: 1 }));
}

#[test]
fn evaluate_reports_the_first_symbol_that_fails() {
    let current = quotes(&[("AAA", 90), ("CCC", 5)]);
    let baseline = quotes(&[("AAA", 0), ("BBB", 50)]);
    assert_eq!(evaluate(&baseline, &current), Err(EngineError::InvalidBaseline { position: 0 }));
    let baseline = quotes(&[("BBB", 50), ("AAA", 0)]);
    assert_eq!(evaluate(&baseline, &current), Err(EngineError::MissingPrice { position: 0 }));
}

#[test]
fn evaluate_looks_for_the_price_before_the_baseline() {
    let baseline = quotes(&[("AAA", 100), ("BBB", 0)]);
    let current = quotes(&[("AAA", 90)]);
    assert_eq!(evaluate(&baseline, &current), Err(EngineError::MissingPrice { position: 1 }));
}

#[test]
fn evaluate_accepts_a_current_price_of_zero() {
    let records = evaluate(&quotes(&[("AAA", 100)]), &quotes(&[("AAA", 0)])).unwrap();
    assert_eq!(records[0].percent_change, -10_000);
}

#[test]
fn worst_performer_has_the_lowest_change() {
    let records = vec![rec("AAA", 100, 110), rec("BBB", 100, 70), rec("CCC", 100, 90)];
    assert_eq!(worst_performer(&records), Some(1));
}

#[test]
fn worst_performer_among_gains_only() {
    let records = vec![rec("AAA", 100, 130), rec("BBB", 100, 120), rec("CCC", 100, 125)];
    assert_eq!(worst_performer(&records), Some(1));
}

#[test]
fn worst_performer_above_a_thousandfold_gain() {
    let records = vec![rec("AAA", 1, 5000), rec("BBB", 1, 3000)];
    assert_eq!(worst_performer(&records), Some(1));
}

#[test]
fn worst_performer_of_a_tie_is_the_first_in_the_watchlist() {
    let records = vec![rec("AAA", 100, 110), rec("BBB", 100, 90), rec("CCC", 10, 9), rec("DDD", 200, 180)];
    assert_eq!(worst_performer(&records), Some(1));
    let records = vec![rec("CCC", 10, 9), rec("BBB", 100, 90)];
    assert_eq!(worst_performer(&records), Some(0));
}

#[test]
fn worst_performer_goes_by_the_exact_change() {
    // both are held as -10.00%; the second has fallen a little further
    let records = vec![rec("AAA", 1_000_000, 900_050), rec("BBB", 1_000_000, 900_010)];
    assert_eq!(records[0].percent_change, records[1].percent_change);
    assert_eq!(worst_performer(&records), Some(1));
}

#[test]
fn worst_performer_of_one_record_and_of_none() {
    assert_eq!(worst_performer(&vec![rec("AAA", 100, 110)]), Some(0));
    assert_eq!(worst_performer(&Vec::new()), None);
}

#[test]
fn worst_performer_has_the_lowest_percent_change_of_all() {
    let records = vec![
        rec("AAA", 100, 97),
        rec("BBB", 250, 240),
        rec("CCC", 3, 2),
        rec("DDD", 7, 9),
        rec("EEE", 9, 6),
    ];
    let w = worst_performer(&records).unwrap();
    for r in &records {
        assert!(records[w].percent_change <= r.percent_change);
    }
    assert_eq!(w, 2);
}

#[test]
fn find_worst_performance_example() {
    let baseline = quotes(&[("AAA", 100), ("BBB", 50)]);
    let current = quotes(&[("AAA", 90), ("BBB", 55)]);
    let (worst, records) = find_worst_performance(&baseline, &current).unwrap();
    assert_eq!(worst, Some(0));
    assert_eq!(records[0].symbol, "AAA");
    assert_eq!(records[0].percent_change, -1000);
    assert_eq!(records[1].symbol, "BBB");
    assert_eq!(records[1].percent_change, 1000);
}

#[test]
fn find_worst_performance_of_an_empty_watchlist() {
    let (worst, records) = find_worst_performance(&Vec::new(), &Vec::new()).unwrap();
    assert_eq!(worst, None);
    assert!(records.is_empty());
}

#[test]
fn find_worst_performance_passes_the_error_on() {
    let baseline = quotes(&[("AAA", 100), ("BBB", 50)]);
    assert_eq!(
        find_worst_performance(&baseline, &quotes(&[("BBB", 55)])),
        Err(EngineError::MissingPrice { position: 0 })
    );
    assert_eq!(
        find_worst_performance(&quotes(&[("AAA", 0)]), &quotes(&[("AAA", 55)])),
        Err(EngineError::InvalidBaseline { position: 0 })
    );
}
