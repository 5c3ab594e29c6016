use buy_low::model::{EngineError, TradeDecision};
use buy_low::sizer::{affordable_shares, check_funds, size_trade};

#[test]
fn affordable_shares_example() {
    assert_eq!(affordable_shares(500, 90), Ok(5));
}

#[test]
fn affordable_shares_rounds_down() {
    assert_eq!(affordable_shares(1000, 3), Ok(333));
    assert_eq!(affordable_shares(179, 90), Ok(1));
    assert_eq!(affordable_shares(180, 90), Ok(2));
    assert_eq!(affordable_shares(181, 90), Ok(2));
}

#[test]
fn affordable_shares_may_be_zero() {
    assert_eq!(affordable_shares(89, 90), Ok(0));
    assert_eq!(affordable_shares(0, 90), Ok(0));
}

#[test]
fn affordable_shares_at_the_price_itself() {
    assert_eq!(affordable_shares(90, 90), Ok(1));
}

#[test]
fn affordable_shares_of_the_largest_amounts() {
    assert_eq!(affordable_shares(u64::MAX, 1), Ok(u64::MAX));
    assert_eq!(affordable_shares(u64::MAX, u64::MAX), Ok(1));
    assert_eq!(affordable_shares(u64::MAX - 1, u64::MAX), Ok(0));
}

#[test]
fn affordable_shares_refuses_a_price_of_zero() {
    assert_eq!(affordable_shares(500, 0), Err(EngineError::InvalidPrice));
    assert_eq!(affordable_shares(0, 0), Err(EngineError::InvalidPrice));
}

#[test]
fn affordable_shares_cost_no_more_than_the_budget() {
    for (budget, price) in [(500u64, 90u64), (1, 1), (999, 1000), (1_000_000, 7), (12, 5)] {
        let shares = affordable_shares(budget, price).unwrap();
        assert!(shares * price <= budget);
        assert!(budget < (shares + 1) * price);
    }
}

#[test]
fn check_funds_passes_within_the_cash_balance() {
    assert_eq!(check_funds(500, 1000), Ok(()));
    assert_eq!(check_funds(1000, 1000), Ok(()));
    assert_eq!(check_funds(0, 0), Ok(()));
}

#[test]
fn check_funds_refuses_a_budget_above_the_cash_balance() {
    assert_eq!(
        check_funds(2000, 1000),
        Err(EngineError::InsufficientFunds { budget: 2000, cash_balance: 1000 })
    );
    assert_eq!(
        check_funds(1001, 1000),
        Err(EngineError::InsufficientFunds { budget: 1001, cash_balance: 1000 })
    );
}

#[test]
fn size_trade_example() {
    assert_eq!(
        size_trade("AAA".to_string(), 90, 500, 1000),
        Ok(TradeDecision {
            symbol: "AAA".to_string(),
            affordable_shares: 5,
            budget: 500,
            cash_balance: 1000,
        })
    );
}

#[test]
fn size_trade_with_zero_shares_is_no_error() {
    let decision = size_trade("AAA".to_string(), 90, 50, 1000).unwrap();
    assert_eq!(decision.affordable_shares, 0);
    assert_eq!(decision.symbol, "AAA");
}

#[test]
fn size_trade_refuses_a_price_of_zero() {
    assert_eq!(size_trade("AAA".to_string(), 0, 500, 1000), Err(EngineError::InvalidPrice));
}

#[test]
fn size_trade_refuses_a_budget_above_the_cash_balance() {
    assert_eq!(
        size_trade("AAA".to_string(), 90, 2000, 1000),
        Err(EngineError::InsufficientFunds { budget: 2000, cash_balance: 1000 })
    );
}

#[test]
fn size_trade_checks_the_price_before_the_funds() {
    assert_eq!(size_trade("AAA".to_string(), 0, 2000, 1000), Err(EngineError::InvalidPrice));
}
