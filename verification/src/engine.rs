//! One run of the engine, from prices to the order that is to be submitted.

use crate::evaluator::{
    can_evaluate, evaluate, failure_at, is_first_failure, is_worst, lemma_worst_is_unique,
    records_of, worst_performer,
};
use crate::model::{EngineError, Order, PerformanceRecord, Quote, TradeDecision};
use crate::report::{is_report, sort_report};
use crate::sizer::{
    affordable_shares, decision_of, lemma_shares_are_the_most_affordable, shares_for, size_trade,
    sizing_failure,
};
use vstd::prelude::*;

verus! {

/// What one run has come to. A run evaluates the watchlist, sorts the
/// report, finds the worst performer, sizes its purchase and passes it
/// through the affordability gate. It stops at the first stage that fails;
/// what the stages before had computed stays in the plan.
#[derive(Debug, PartialEq, Eq)]
pub struct RunPlan {
    /// The records of the watchlist, worst performer first. There is none
    /// where the watchlist could not be evaluated.
    pub report: Option<Vec<PerformanceRecord>>,
    /// The position of the worst performer in the watchlist.
    pub worst: Option<usize>,
    /// The whole shares of the worst performer that the budget buys.
    pub affordable_shares: Option<u64>,
    /// The sized trade, or the failure that stopped the run.
    pub decision: Result<TradeDecision, EngineError>,
    /// The order to hand to the order submitter, if there is one.
    pub order: Option<Order>,
}

/// The order that a decision leads to: one in live mode for a decision that
/// buys at least one share, none in a dry run, none for zero shares.
pub open spec fn order_of(decision: TradeDecision, live: bool) -> Option<Order> {
    if live && decision.affordable_shares > 0 {
        Some(Order { symbol: decision.symbol, quantity: decision.affordable_shares })
    } else {
        None
    }
}

/// Decides whether `decision` is to be submitted as an order.
pub fn order_for(decision: &TradeDecision, live: bool) -> (order: Option<Order>)
    ensures
        order == order_of(*decision, live),
{
    if live && decision.affordable_shares > 0 {
        Some(Order { symbol: decision.symbol.clone(), quantity: decision.affordable_shares })
    } else {
        None
    }
}

/// Whether `plan` holds what sizing the worst performer `worst` comes to:
/// the shares that the budget buys at its current price, unless that price
/// is zero; the decision, or the failure of the price or of the funds; and
/// the order of that decision.
pub open spec fn is_sized(
    worst: PerformanceRecord,
    budget: u64,
    cash_balance: u64,
    live: bool,
    plan: RunPlan,
) -> bool {
    let price = worst.current_price;
    &&& plan.affordable_shares == if price == 0 {
        None
    } else {
        Some(shares_for(budget as int, price as int) as u64)
    }
    &&& plan.decision == match sizing_failure(price, budget, cash_balance) {
        Some(e) => Err(e),
        None => Ok(decision_of(worst.symbol, price, budget, cash_balance)),
    }
    &&& plan.order == match plan.decision {
        Ok(decision) => order_of(decision, live),
        Err(_) => None,
    }
}

/// Whether `plan` is what a run on these inputs comes to.
pub open spec fn is_run_plan(
    baseline: Seq<Quote>,
    current: Seq<Quote>,
    budget: u64,
    cash_balance: u64,
    live: bool,
    plan: RunPlan,
) -> bool {
    let records = records_of(baseline, current);
    if !can_evaluate(baseline, current) {
        &&& plan.report is None
        &&& plan.worst is None
        &&& plan.affordable_shares is None
        &&& plan.order is None
        &&& plan.decision is Err
        &&& exists|k: int| #[trigger]
            is_first_failure(baseline, current, k) && failure_at(baseline, current, k) == Some(
                plan.decision->Err_0,
            )
    } else if baseline.len() == 0 {
        &&& plan.report is Some
        &&& is_report(records, plan.report->Some_0@)
        &&& plan.worst is None
        &&& plan.affordable_shares is None
        &&& plan.order is None
        &&& plan.decision == Err::<TradeDecision, EngineError>(EngineError::EmptyWatchlist)
    } else {
        &&& plan.report is Some
        &&& is_report(records, plan.report->Some_0@)
        &&& plan.worst is Some
        &&& is_worst(records, plan.worst->Some_0 as int)
        &&& is_sized(records[plan.worst->Some_0 as int], budget, cash_balance, live, plan)
    }
}

/// Plans one run. `baseline` holds the watchlist in its order, each symbol
/// with its baseline price; `current` holds the current prices.
pub fn plan_run(
    baseline: &Vec<Quote>,
    current: &Vec<Quote>,
    budget: u64,
    cash_balance: u64,
    live: bool,
) -> (plan: RunPlan)
    ensures
        is_run_plan(baseline@, current@, budget, cash_balance, live, plan),
{
    let records = match evaluate(baseline, current) {
        Ok(records) => records,
        Err(e) => {
            proof {
                let k = choose|k: int| #[trigger]
                    is_first_failure(baseline@, current@, k) && failure_at(
                        baseline@,
                        current@,
                        k,
                    ) == Some(e);
                assert(failure_at(baseline@, current@, k) is Some);
            }
            return RunPlan {
                report: None,
                worst: None,
                affordable_shares: None,
                decision: Err(e),
                order: None,
            };
        },
    };
    let report = sort_report(&records);
    let worst: usize = match worst_performer(&records) {
        Some(w) => w,
        None => {
            return RunPlan {
                report: Some(report),
                worst: None,
                affordable_shares: None,
                decision: Err(EngineError::EmptyWatchlist),
                order: None,
            };
        },
    };
    let record = &records[worst];
    let shares: Option<u64> = match affordable_shares(budget, record.current_price) {
        Ok(shares) => Some(shares),
        Err(_) => None,
    };
    let decision = size_trade(record.symbol.clone(), record.current_price, budget, cash_balance);
    let order: Option<Order> = match &decision {
        Ok(sized) => order_for(sized, live),
        Err(_) => None,
    };
    RunPlan { report: Some(report), worst: Some(worst), affordable_shares: shares, decision, order }
}

/// The orders that a run hands to the order submitter: the one of its
/// plan, if the plan holds one.
pub open spec fn orders_of(plan: RunPlan) -> Seq<Order> {
    match plan.order {
        Some(order) => seq![order],
        None => Seq::empty(),
    }
}

/// A watchlist that evaluates has one worst performer, and the run sizes
/// that one: the plan names its position and holds what sizing it comes to.
pub proof fn lemma_run_sizes_the_worst(
    baseline: Seq<Quote>,
    current: Seq<Quote>,
    budget: u64,
    cash_balance: u64,
    live: bool,
    plan: RunPlan,
    w: int,
)
    requires
        is_run_plan(baseline, current, budget, cash_balance, live, plan),
        can_evaluate(baseline, current),
        is_worst(records_of(baseline, current), w),
    ensures
        plan.worst == Some(w as usize),
        is_sized(records_of(baseline, current)[w], budget, cash_balance, live, plan),
{
    lemma_worst_is_unique(records_of(baseline, current), plan.worst->Some_0 as int, w);
}

/// A run submits an order only after it has come to a decision, and never
/// more than one.
pub proof fn lemma_order_follows_decision(
    baseline: Seq<Quote>,
    current: Seq<Quote>,
    budget: u64,
    cash_balance: u64,
    live: bool,
    plan: RunPlan,
)
    requires
        is_run_plan(baseline, current, budget, cash_balance, live, plan),
    ensures
        orders_of(plan).len() <= 1,
        plan.decision is Err ==> orders_of(plan) == Seq::<Order>::empty(),
{
}

/// A run whose budget exceeds the cash balance fails, and submits no order.
pub proof fn lemma_no_order_beyond_cash(
    baseline: Seq<Quote>,
    current: Seq<Quote>,
    budget: u64,
    cash_balance: u64,
    live: bool,
    plan: RunPlan,
)
    requires
        is_run_plan(baseline, current, budget, cash_balance, live, plan),
        budget > cash_balance,
    ensures
        plan.decision is Err,
        orders_of(plan) == Seq::<Order>::empty(),
{
}

/// Where the watchlist evaluates and its worst performer has a positive
/// price, a run whose budget exceeds the cash balance fails for want of
/// funds, with both figures in the error, and submits no order.
pub proof fn lemma_insufficient_funds_stop_the_run(
    baseline: Seq<Quote>,
    current: Seq<Quote>,
    budget: u64,
    cash_balance: u64,
    live: bool,
    plan: RunPlan,
    w: int,
)
    requires
        is_run_plan(baseline, current, budget, cash_balance, live, plan),
        can_evaluate(baseline, current),
        is_worst(records_of(baseline, current), w),
        records_of(baseline, current)[w].current_price > 0,
        budget > cash_balance,
    ensures
        plan.decision == Err::<TradeDecision, EngineError>(
            (EngineError::InsufficientFunds { budget, cash_balance }),
        ),
        orders_of(plan) == Seq::<Order>::empty(),
{
    lemma_run_sizes_the_worst(baseline, current, budget, cash_balance, live, plan, w);
}

/// A dry run submits no order.
pub proof fn lemma_dry_run_submits_nothing(
    baseline: Seq<Quote>,
    current: Seq<Quote>,
    budget: u64,
    cash_balance: u64,
    plan: RunPlan,
)
    requires
        is_run_plan(baseline, current, budget, cash_balance, false, plan),
    ensures
        orders_of(plan) == Seq::<Order>::empty(),
{
}

/// A live run within the cash balance submits exactly one order, for the
/// worst performer and for the shares that the budget buys, where the
/// watchlist evaluates, the worst performer has a positive price and the
/// budget buys at least one share.
pub proof fn lemma_live_run_submits_one_order(
    baseline: Seq<Quote>,
    current: Seq<Quote>,
    budget: u64,
    cash_balance: u64,
    plan: RunPlan,
    w: int,
)
    requires
        is_run_plan(baseline, current, budget, cash_balance, true, plan),
        can_evaluate(baseline, current),
        is_worst(records_of(baseline, current), w),
        0 < records_of(baseline, current)[w].current_price <= budget <= cash_balance,
    ensures
        orders_of(plan) == seq![
            (Order {
                symbol: records_of(baseline, current)[w].symbol,
                quantity: shares_for(
                    budget as int,
                    records_of(baseline, current)[w].current_price as int,
                ) as u64,
            }),
        ],
{
    let price = records_of(baseline, current)[w].current_price;
    lemma_run_sizes_the_worst(baseline, current, budget, cash_balance, true, plan, w);
    lemma_shares_are_the_most_affordable(budget as int, price as int);
    assert(shares_for(budget as int, price as int) <= budget) by (nonlinear_arith)
        requires
            shares_for(budget as int, price as int) * price <= budget,
            price >= 1,
            shares_for(budget as int, price as int) >= 0,
    ;
}

/// A budget below the price of the worst performer buys nothing: the run
/// within the cash balance comes to a decision of zero shares and submits
/// no order.
pub proof fn lemma_zero_shares_submit_nothing(
    baseline: Seq<Quote>,
    current: Seq<Quote>,
    budget: u64,
    cash_balance: u64,
    live: bool,
    plan: RunPlan,
    w: int,
)
    requires
        is_run_plan(baseline, current, budget, cash_balance, live, plan),
        can_evaluate(baseline, current),
        is_worst(records_of(baseline, current), w),
        budget < records_of(baseline, current)[w].current_price,
        budget <= cash_balance,
    ensures
        plan.decision is Ok,
        plan.decision->Ok_0.affordable_shares == 0,
        plan.affordable_shares == Some(0u64),
        orders_of(plan) == Seq::<Order>::empty(),
{
    let price = records_of(baseline, current)[w].current_price;
    lemma_run_sizes_the_worst(baseline, current, budget, cash_balance, live, plan, w);
    lemma_shares_are_the_most_affordable(budget as int, price as int);
}

/// The exit status of a run that succeeded.
pub const EXIT_SUCCESS: i32 = 0;

/// The exit status of a run that the affordability gate stopped.
pub const EXIT_INSUFFICIENT_FUNDS: i32 = -1;

/// The exit status of a run that failed in any other way.
pub const EXIT_FATAL: i32 = 101;

/// The exit status that stands for an outcome.
pub open spec fn exit_status_of<T>(outcome: Result<T, EngineError>) -> i32 {
    match outcome {
        Ok(_) => EXIT_SUCCESS,
        Err(EngineError::InsufficientFunds { .. }) => EXIT_INSUFFICIENT_FUNDS,
        Err(_) => EXIT_FATAL,
    }
}

/// Maps the outcome of a run to the exit status of the process: zero for
/// success, and among the failures a status of its own for want of funds.
pub fn exit_status<T>(outcome: &Result<T, EngineError>) -> (status: i32)
    ensures
        status == exit_status_of(*outcome),
        status == EXIT_SUCCESS <==> outcome is Ok,
        status == EXIT_INSUFFICIENT_FUNDS <==> outcome is Err
            && outcome->Err_0 is InsufficientFunds,
{
    match outcome {
        Ok(_) => EXIT_SUCCESS,
        Err(EngineError::InsufficientFunds { .. }) => EXIT_INSUFFICIENT_FUNDS,
        Err(_) => EXIT_FATAL,
    }
}

} // verus!
