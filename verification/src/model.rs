//! The values that flow through one run of the engine.

use crate::performance::{change_below, falls_below, percent_change, percent_change_of, SCALE};
use vstd::prelude::*;

verus! {

/// One price of one symbol, as the market data source reports it.
#[derive(Debug, Clone, PartialEq, Eq)]
pub struct Quote {
    pub symbol: String,
    pub price: u64,
}

/// The two prices of one watchlist symbol: the baseline from the lookback
/// window and the current one.
#[derive(Debug, Clone, PartialEq, Eq)]
pub struct PriceSample {
    pub symbol: String,
    pub baseline_price: u64,
    pub current_price: u64,
}

/// How one watchlist symbol has moved since its baseline. `percent_change`
/// is in hundredths of a percent, rounded away from zero: it is zero for
/// equal prices only.
#[derive(Debug, Clone, PartialEq, Eq)]
pub struct PerformanceRecord {
    pub symbol: String,
    pub baseline_price: u64,
    pub current_price: u64,
    pub percent_change: i128,
}

/// The sized trade: how many whole shares of the worst performer the budget
/// buys, with the two figures the affordability check compared.
#[derive(Debug, Clone, PartialEq, Eq)]
pub struct TradeDecision {
    pub symbol: String,
    pub affordable_shares: u64,
    pub budget: u64,
    pub cash_balance: u64,
}

/// A market buy order for the order submitter.
#[derive(Debug, Clone, PartialEq, Eq)]
pub struct Order {
    pub symbol: String,
    pub quantity: u64,
}

/// Why a run stopped. A `position` counts watchlist entries from zero.
#[derive(Debug, Clone, Copy, PartialEq, Eq, Structural)]
pub enum EngineError {
    /// The baseline price of the symbol at `position` is zero.
    InvalidBaseline { position: usize },
    /// No current price is known for the symbol at `position`.
    MissingPrice { position: usize },
    /// The price to size the trade at is zero.
    InvalidPrice,
    /// The budget exceeds the cash the account holds.
    InsufficientFunds { budget: u64, cash_balance: u64 },
    /// The watchlist names no symbol, so there is no worst performer.
    EmptyWatchlist,
    /// The order submitter failed.
    Order,
    /// A collaborator failed in a way the engine cannot interpret.
    Fatal,
}

impl PerformanceRecord {
    /// The record that `sample` gives rise to.
    pub open spec fn of(sample: PriceSample) -> PerformanceRecord {
        PerformanceRecord {
            symbol: sample.symbol,
            baseline_price: sample.baseline_price,
            current_price: sample.current_price,
            percent_change: percent_change_of(
                sample.baseline_price as int,
                sample.current_price as int,
            ) as i128,
        }
    }

    /// A record is well formed when its baseline is positive and its percent
    /// change is the one its two prices give. Such a percent change has the
    /// sign of the price change and is no lower than a loss of the whole
    /// baseline.
    pub open spec fn wf(self) -> bool {
        &&& self.baseline_price > 0
        &&& self.percent_change == percent_change_of(
            self.baseline_price as int,
            self.current_price as int,
        )
        &&& (self.percent_change == 0 <==> self.current_price == self.baseline_price)
        &&& (self.percent_change > 0 <==> self.current_price > self.baseline_price)
        &&& (self.percent_change < 0 <==> self.current_price < self.baseline_price)
        &&& self.percent_change >= -(SCALE as int)
    }

    /// Decides `wf`.
    pub fn is_well_formed(&self) -> (ok: bool)
        ensures
            ok == self.wf(),
    {
        self.baseline_price > 0 && self.percent_change == percent_change(
            self.baseline_price,
            self.current_price,
        )
    }

    /// Measures a sample. There is no record for a baseline of zero.
    pub fn from_sample(sample: PriceSample) -> (record: Option<PerformanceRecord>)
        ensures
            sample.baseline_price == 0 <==> record is None,
            record matches Some(r) ==> r == Self::of(sample) && r.wf(),
    {
        if sample.baseline_price == 0 {
            return None;
        }
        let change: i128 = percent_change(sample.baseline_price, sample.current_price);
        Some(
            PerformanceRecord {
                symbol: sample.symbol,
                baseline_price: sample.baseline_price,
                current_price: sample.current_price,
                percent_change: change,
            },
        )
    }

    /// Whether this record's change is strictly lower than `other`'s, by
    /// the exact prices and not by the rounded `percent_change`.
    pub open spec fn below(self, other: PerformanceRecord) -> bool {
        change_below(
            self.baseline_price as int,
            self.current_price as int,
            other.baseline_price as int,
            other.current_price as int,
        )
    }

    /// Decides `below`.
    pub fn is_below(&self, other: &PerformanceRecord) -> (below: bool)
        ensures
            below == self.below(*other),
    {
        falls_below(
            self.baseline_price,
            self.current_price,
            other.baseline_price,
            other.current_price,
        )
    }

    /// A copy of the record.
    pub fn duplicate(&self) -> (copy: PerformanceRecord)
        ensures
            copy == *self,
    {
        PerformanceRecord {
            symbol: self.symbol.clone(),
            baseline_price: self.baseline_price,
            current_price: self.current_price,
            percent_change: self.percent_change,
        }
    }
}

} // verus!
