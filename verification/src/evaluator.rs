//! The performance evaluator: one record for every watchlist symbol, and
//! the symbol that fell the most.

use crate::model::{EngineError, PerformanceRecord, PriceSample, Quote};
use crate::performance::{
    lemma_change_below_asymmetric, lemma_change_below_chain, lemma_percent_change_monotonic,
};
use vstd::prelude::*;

verus! {

/// Whether some quote carries `symbol`.
pub open spec fn has_quote(quotes: Seq<Quote>, symbol: Seq<char>) -> bool {
    exists|i: int| 0 <= i < quotes.len() && (#[trigger] quotes[i]).symbol@ == symbol
}

/// Whether the quote at `i` is the first that carries `symbol`.
pub open spec fn is_first_quote(quotes: Seq<Quote>, symbol: Seq<char>, i: int) -> bool {
    &&& 0 <= i < quotes.len()
    &&& quotes[i].symbol@ == symbol
    &&& forall|j: int| 0 <= j < i ==> (#[trigger] quotes[j]).symbol@ != symbol
}

/// The price of `symbol`: that of the first quote that carries it.
pub open spec fn price_of(quotes: Seq<Quote>, symbol: Seq<char>) -> Option<u64> {
    if has_quote(quotes, symbol) {
        Some(quotes[choose|i: int| is_first_quote(quotes, symbol, i)].price)
    } else {
        None
    }
}

proof fn lemma_first_quote_before(quotes: Seq<Quote>, symbol: Seq<char>, n: int)
    requires
        0 <= n < quotes.len(),
        quotes[n].symbol@ == symbol,
    ensures
        exists|i: int| is_first_quote(quotes, symbol, i),
    decreases n,
{
    if exists|j: int| 0 <= j < n && (#[trigger] quotes[j]).symbol@ == symbol {
        let j = choose|j: int| 0 <= j < n && (#[trigger] quotes[j]).symbol@ == symbol;
        lemma_first_quote_before(quotes, symbol, j);
    } else {
        assert(is_first_quote(quotes, symbol, n));
    }
}

/// Where some quote carries `symbol`, one of them is the first, and
/// `price_of` is its price.
pub proof fn lemma_price_is_of_first_quote(quotes: Seq<Quote>, symbol: Seq<char>)
    requires
        has_quote(quotes, symbol),
    ensures
        exists|i: int|
            is_first_quote(quotes, symbol, i) && price_of(quotes, symbol) == Some(quotes[i].price),
{
    let n = choose|n: int| 0 <= n < quotes.len() && (#[trigger] quotes[n]).symbol@ == symbol;
    lemma_first_quote_before(quotes, symbol, n);
    let i = choose|i: int| is_first_quote(quotes, symbol, i);
    assert(is_first_quote(quotes, symbol, i) && price_of(quotes, symbol) == Some(quotes[i].price));
}

/// Looks `symbol` up among `quotes`: the price of the first quote that
/// carries it, and none where no quote does.
pub fn lookup_price(quotes: &Vec<Quote>, symbol: &String) -> (price: Option<u64>)
    ensures
        price == price_of(quotes@, symbol@),
{
    let mut i: usize = 0;
    while i < quotes.len()
        invariant
            i <= quotes.len(),
            forall|j: int| 0 <= j < i ==> (#[trigger] quotes[j]).symbol@ != symbol@,
        decreases quotes.len() - i,
    {
        if quotes[i].symbol == *symbol {
            assert(is_first_quote(quotes@, symbol@, i as int));
            return Some(quotes[i].price);
        }
        i += 1;
    }
    None
}

/// The two prices of the watchlist symbol at `k`: its baseline, and its
/// price among the current quotes.
pub open spec fn sample_at(baseline: Seq<Quote>, current: Seq<Quote>, k: int) -> PriceSample {
    PriceSample {
        symbol: baseline[k].symbol,
        baseline_price: baseline[k].price,
        current_price: price_of(current, baseline[k].symbol@).unwrap(),
    }
}

/// What is wrong with the watchlist symbol at `k`, if anything: it has no
/// current price, or it has one and its baseline is zero.
pub open spec fn failure_at(baseline: Seq<Quote>, current: Seq<Quote>, k: int) -> Option<
    EngineError,
> {
    if !has_quote(current, baseline[k].symbol@) {
        Some(EngineError::MissingPrice { position: k as usize })
    } else if baseline[k].price == 0 {
        Some(EngineError::InvalidBaseline { position: k as usize })
    } else {
        None
    }
}

/// Whether the symbol at `k` is the first of the watchlist with a failure.
pub open spec fn is_first_failure(baseline: Seq<Quote>, current: Seq<Quote>, k: int) -> bool {
    &&& 0 <= k < baseline.len()
    &&& failure_at(baseline, current, k) is Some
    &&& forall|j: int| 0 <= j < k ==> #[trigger] failure_at(baseline, current, j) is None
}

/// Whether every watchlist symbol has a current price and a positive
/// baseline.
pub open spec fn can_evaluate(baseline: Seq<Quote>, current: Seq<Quote>) -> bool {
    forall|k: int| 0 <= k < baseline.len() ==> #[trigger] failure_at(baseline, current, k) is None
}

/// The records of a watchlist, one for each symbol and in its order.
pub open spec fn records_of(baseline: Seq<Quote>, current: Seq<Quote>) -> Seq<PerformanceRecord> {
    Seq::new(baseline.len(), |k: int| PerformanceRecord::of(sample_at(baseline, current, k)))
}

/// Whether every record of `records` is well formed.
pub open spec fn all_wf(records: Seq<PerformanceRecord>) -> bool {
    forall|k: int| 0 <= k < records.len() ==> (#[trigger] records[k]).wf()
}

/// Measures every symbol of the watchlist. `baseline` holds the watchlist
/// in its order, each symbol with its baseline price; `current` holds the
/// current prices, of these symbols and possibly of others. The symbols are
/// taken in order, and the first that fails decides the error.
pub fn evaluate(baseline: &Vec<Quote>, current: &Vec<Quote>) -> (result: Result<
    Vec<PerformanceRecord>,
    EngineError,
>)
    ensures
        match result {
            Ok(records) => {
                &&& can_evaluate(baseline@, current@)
                &&& records@ == records_of(baseline@, current@)
                &&& all_wf(records@)
            },
            Err(e) => exists|k: int| #[trigger]
                is_first_failure(baseline@, current@, k) && failure_at(baseline@, current@, k)
                    == Some(e),
        },
{
    let mut records: Vec<PerformanceRecord> = Vec::new();
    let mut k: usize = 0;
    while k < baseline.len()
        invariant
            k <= baseline.len(),
            records.len() == k,
            forall|j: int| 0 <= j < k ==> #[trigger] failure_at(baseline@, current@, j) is None,
            forall|j: int|
                0 <= j < k ==> #[trigger] records[j] == PerformanceRecord::of(
                    sample_at(baseline@, current@, j),
                ),
            all_wf(records@),
        decreases baseline.len() - k,
    {
        let quote = &baseline[k];
        let current_price: u64 = match lookup_price(current, &quote.symbol) {
            Some(price) => price,
            None => {
                let e = EngineError::MissingPrice { position: k };
                assert(is_first_failure(baseline@, current@, k as int));
                return Err(e);
            },
        };
        let sample = PriceSample {
            symbol: quote.symbol.clone(),
            baseline_price: quote.price,
            current_price,
        };
        assert(sample == sample_at(baseline@, current@, k as int));
        match PerformanceRecord::from_sample(sample) {
            Some(record) => {
                records.push(record);
            },
            None => {
                let e = EngineError::InvalidBaseline { position: k };
                assert(is_first_failure(baseline@, current@, k as int));
                return Err(e);
            },
        }
        k += 1;
    }
    assert(records@ =~= records_of(baseline@, current@));
    Ok(records)
}

/// Whether the record at `w` is the worst performer: no record's change is
/// below its own, and every record before it has a change above its own.
/// Among records with the lowest change, the first of the watchlist is the
/// worst performer.
pub open spec fn is_worst(records: Seq<PerformanceRecord>, w: int) -> bool {
    &&& 0 <= w < records.len()
    &&& forall|j: int| 0 <= j < records.len() ==> !(#[trigger] records[j]).below(records[w])
    &&& forall|j: int| 0 <= j < w ==> records[w].below(#[trigger] records[j])
}

/// At most one record is the worst performer.
pub proof fn lemma_worst_is_unique(records: Seq<PerformanceRecord>, v: int, w: int)
    requires
        is_worst(records, v),
        is_worst(records, w),
    ensures
        v == w,
{
    // Were they two, the later would be below the earlier, and nothing is
    // below the worst.
    let a = records[v];
    let b = records[w];
    lemma_change_below_asymmetric(
        a.baseline_price as int,
        a.current_price as int,
        b.baseline_price as int,
        b.current_price as int,
    );
    if v < w {
        assert(b.below(a));
        assert(!b.below(a));
    } else if w < v {
        assert(a.below(b));
        assert(!a.below(b));
    }
}

/// The worst performer has the lowest percent change of the list, rounded
/// as the records hold it.
pub proof fn lemma_worst_has_lowest_percent_change(records: Seq<PerformanceRecord>, w: int, j: int)
    requires
        all_wf(records),
        is_worst(records, w),
        0 <= j < records.len(),
    ensures
        records[w].percent_change <= records[j].percent_change,
{
    let a = records[w];
    let b = records[j];
    assert(a.wf() && b.wf());
    assert(!b.below(a));
    lemma_percent_change_monotonic(
        a.baseline_price as int,
        a.current_price as int,
        b.baseline_price as int,
        b.current_price as int,
    );
}

/// Finds the worst performer: the position of the record with the lowest
/// change, and of the first such record where several share it. There is
/// none in an empty list.
pub fn worst_performer(records: &Vec<PerformanceRecord>) -> (worst: Option<usize>)
    requires
        all_wf(records@),
    ensures
        match worst {
            Some(w) => is_worst(records@, w as int),
            None => records.len() == 0,
        },
{
    if records.len() == 0 {
        return None;
    }
    let mut w: usize = 0;
    let mut k: usize = 1;
    while k < records.len()
        invariant
            all_wf(records@),
            0 <= w < k <= records.len(),
            forall|j: int| 0 <= j < k ==> !(#[trigger] records[j]).below(records[w as int]),
            forall|j: int| 0 <= j < w ==> records[w as int].below(#[trigger] records[j]),
        decreases records.len() - k,
    {
        if records[k].is_below(&records[w]) {
            proof {
                let lower = records[k as int];
                let old_worst = records[w as int];
                assert(lower.wf() && old_worst.wf());
                assert forall|j: int| 0 <= j < k implies lower.below(#[trigger] records[j]) by {
                    let r = records[j];
                    assert(r.wf());
                    lemma_change_below_chain(
                        lower.baseline_price as int,
                        lower.current_price as int,
                        old_worst.baseline_price as int,
                        old_worst.current_price as int,
                        r.baseline_price as int,
                        r.current_price as int,
                    );
                }
            }
            w = k;
        }
        k += 1;
    }
    Some(w)
}

/// Evaluates the watchlist and finds its worst performer: the records in
/// watchlist order, and the position of the worst among them.
pub fn find_worst_performance(baseline: &Vec<Quote>, current: &Vec<Quote>) -> (result: Result<
    (Option<usize>, Vec<PerformanceRecord>),
    EngineError,
>)
    ensures
        match result {
            Ok((worst, records)) => {
                &&& can_evaluate(baseline@, current@)
                &&& records@ == records_of(baseline@, current@)
                &&& all_wf(records@)
                &&& match worst {
                    Some(w) => is_worst(records@, w as int),
                    None => baseline.len() == 0,
                }
            },
            Err(e) => exists|k: int| #[trigger]
                is_first_failure(baseline@, current@, k) && failure_at(baseline@, current@, k)
                    == Some(e),
        },
{
    match evaluate(baseline, current) {
        Ok(records) => {
            let worst = worst_performer(&records);
            Ok((worst, records))
        },
        Err(e) => Err(e),
    }
}

} // verus!
