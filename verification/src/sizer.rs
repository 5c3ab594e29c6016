//! The trade sizer: how many whole shares a budget buys, and whether the
//! account can pay for them.

use crate::model::{EngineError, TradeDecision};
use vstd::arithmetic::div_mod::{lemma_fundamental_div_mod, lemma_mod_bound};
use vstd::prelude::*;

verus! {

/// The whole shares that `budget` buys at `price`: their quotient, rounded
/// down.
pub open spec fn shares_for(budget: int, price: int) -> int
    recommends
        price > 0,
{
    budget / price
}

/// `shares_for` is the largest number of shares that the budget pays for:
/// that many cost no more than the budget, and one more would.
pub proof fn lemma_shares_are_the_most_affordable(budget: int, price: int)
    requires
        budget >= 0,
        price > 0,
    ensures
        shares_for(budget, price) >= 0,
        shares_for(budget, price) * price <= budget,
        budget < (shares_for(budget, price) + 1) * price,
        shares_for(budget, price) == 0 <==> budget < price,
{
    let q = budget / price;
    lemma_fundamental_div_mod(budget, price);
    lemma_mod_bound(budget, price);
    assert(q * price == price * q) by (nonlinear_arith);
    assert((q + 1) * price == price * q + price) by (nonlinear_arith);
    if q < 0 {
        assert(q * price <= -price) by (nonlinear_arith)
            requires
                q <= -1,
                price > 0,
        ;
    }
    if q >= 1 {
        assert(q * price >= price) by (nonlinear_arith)
            requires
                q >= 1,
                price > 0,
        ;
    }
    if q == 0 {
        assert(price * q == 0) by (nonlinear_arith)
            requires
                q == 0,
        ;
    }
}

/// Sizes the purchase. A price of zero is refused; a budget below the price
/// buys zero shares, which is no error.
pub fn affordable_shares(budget: u64, price: u64) -> (result: Result<u64, EngineError>)
    ensures
        match result {
            Ok(shares) => {
                &&& price > 0
                &&& shares == shares_for(budget as int, price as int)
                &&& shares * price <= budget < (shares + 1) * price
            },
            Err(e) => price == 0 && e == EngineError::InvalidPrice,
        },
{
    if price == 0 {
        return Err(EngineError::InvalidPrice);
    }
    proof {
        lemma_shares_are_the_most_affordable(budget as int, price as int);
    }
    Ok(budget / price)
}

/// The affordability gate: a budget above the cash balance is refused, with
/// both figures in the error.
pub fn check_funds(budget: u64, cash_balance: u64) -> (result: Result<(), EngineError>)
    ensures
        match result {
            Ok(_) => budget <= cash_balance,
            Err(e) => budget > cash_balance && e == (EngineError::InsufficientFunds {
                budget,
                cash_balance,
            }),
        },
{
    if budget > cash_balance {
        Err(EngineError::InsufficientFunds { budget, cash_balance })
    } else {
        Ok(())
    }
}

/// The decision that sizing `symbol` at `price` gives.
pub open spec fn decision_of(symbol: String, price: u64, budget: u64, cash_balance: u64)
    -> TradeDecision {
    TradeDecision {
        symbol,
        affordable_shares: shares_for(budget as int, price as int) as u64,
        budget,
        cash_balance,
    }
}

/// Why `symbol` cannot be traded at `price`, if it cannot: the price is
/// zero, or the price is fine and the budget exceeds the cash balance.
pub open spec fn sizing_failure(price: u64, budget: u64, cash_balance: u64) -> Option<
    EngineError,
> {
    if price == 0 {
        Some(EngineError::InvalidPrice)
    } else if budget > cash_balance {
        Some(EngineError::InsufficientFunds { budget, cash_balance })
    } else {
        None
    }
}

/// Sizes the trade of the worst performer and passes it through the
/// affordability gate. The price is checked first, the funds second.
pub fn size_trade(symbol: String, price: u64, budget: u64, cash_balance: u64) -> (result: Result<
    TradeDecision,
    EngineError,
>)
    ensures
        match result {
            Ok(decision) => {
                &&& sizing_failure(price, budget, cash_balance) is None
                &&& decision == decision_of(symbol, price, budget, cash_balance)
            },
            Err(e) => sizing_failure(price, budget, cash_balance) == Some(e),
        },
{
    let shares: u64 = match affordable_shares(budget, price) {
        Ok(shares) => shares,
        Err(e) => {
            return Err(e);
        },
    };
    match check_funds(budget, cash_balance) {
        Ok(_) => Ok(TradeDecision { symbol, affordable_shares: shares, budget, cash_balance }),
        Err(e) => Err(e),
    }
}

} // verus!
