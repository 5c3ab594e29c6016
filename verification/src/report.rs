//! The report: the records of a run, worst performer first.

use crate::evaluator::{all_wf, is_worst};
use crate::model::PerformanceRecord;
use crate::performance::{
    lemma_change_below_asymmetric, lemma_change_below_chain, lemma_percent_change_monotonic,
};
use vstd::prelude::*;

verus! {

/// Whether the record at `i` stands before the record at `j` in the report:
/// its change is lower, or the two changes are equal and it comes first in
/// the watchlist.
pub open spec fn ranks_before(records: Seq<PerformanceRecord>, i: int, j: int) -> bool {
    records[i].below(records[j]) || (!records[j].below(records[i]) && i < j)
}

/// Whether `order` lists the positions of `records` as the report shows
/// them: every position occurs, and each stands before all that follow it.
pub open spec fn is_ranking(records: Seq<PerformanceRecord>, order: Seq<int>) -> bool {
    &&& order.len() == records.len()
    &&& forall|k: int| 0 <= k < order.len() ==> 0 <= #[trigger] order[k] < records.len()
    &&& forall|v: int| 0 <= v < records.len() ==> #[trigger] order.contains(v)
    &&& forall|a: int, b: int|
        0 <= a < b < order.len() ==> ranks_before(records, #[trigger] order[a], #[trigger] order[b])
}

/// The records taken in the order of the positions that `order` lists.
pub open spec fn arranged(records: Seq<PerformanceRecord>, order: Seq<int>) -> Seq<
    PerformanceRecord,
> {
    Seq::new(order.len(), |k: int| records[order[k]])
}

/// Whether `report` holds the records of `records` sorted by ascending
/// change, records of equal change in the order of the watchlist.
pub open spec fn is_report(records: Seq<PerformanceRecord>, report: Seq<PerformanceRecord>) -> bool {
    exists|order: Seq<int>| #[trigger] is_ranking(records, order) && report == arranged(records, order)
}

/// Of two different positions exactly one stands before the other, and no
/// position stands before itself.
pub proof fn lemma_ranks_before_is_strict(records: Seq<PerformanceRecord>, i: int, j: int)
    ensures
        !ranks_before(records, i, i),
        !(ranks_before(records, i, j) && ranks_before(records, j, i)),
        i != j ==> ranks_before(records, i, j) || ranks_before(records, j, i),
{
    let a = records[i];
    let b = records[j];
    lemma_change_below_asymmetric(
        a.baseline_price as int,
        a.current_price as int,
        b.baseline_price as int,
        b.current_price as int,
    );
}

proof fn lemma_rankings_agree(
    records: Seq<PerformanceRecord>,
    first: Seq<int>,
    second: Seq<int>,
    n: int,
)
    requires
        is_ranking(records, first),
        is_ranking(records, second),
        0 <= n <= records.len(),
    ensures
        forall|k: int| 0 <= k < n ==> first[k] == second[k],
    decreases n,
{
    if n > 0 {
        lemma_rankings_agree(records, first, second, n - 1);
        let k = n - 1;
        let x = first[k];
        let y = second[k];
        assert(second.contains(x));
        assert(first.contains(y));
        let m = choose|m: int| 0 <= m < second.len() && second[m] == x;
        let l = choose|l: int| 0 <= l < first.len() && first[l] == y;
        lemma_ranks_before_is_strict(records, x, y);
        if m < k {
            assert(ranks_before(records, first[m], first[k]));
        } else if l < k {
            assert(ranks_before(records, second[l], second[k]));
        } else if m > k && l > k {
            assert(ranks_before(records, second[k], second[m]));
            assert(ranks_before(records, first[k], first[l]));
        }
    }
}

/// The records have one ranking only.
pub proof fn lemma_ranking_is_unique(
    records: Seq<PerformanceRecord>,
    first: Seq<int>,
    second: Seq<int>,
)
    requires
        is_ranking(records, first),
        is_ranking(records, second),
    ensures
        first == second,
{
    lemma_rankings_agree(records, first, second, records.len() as int);
    assert(first =~= second);
}

/// The records have one report only: `is_report` decides every row.
pub proof fn lemma_report_is_unique(
    records: Seq<PerformanceRecord>,
    first: Seq<PerformanceRecord>,
    second: Seq<PerformanceRecord>,
)
    requires
        is_report(records, first),
        is_report(records, second),
    ensures
        first == second,
{
    let o1 = choose|o: Seq<int>| #[trigger] is_ranking(records, o) && first == arranged(records, o);
    let o2 = choose|o: Seq<int>| #[trigger]
        is_ranking(records, o) && second == arranged(records, o);
    lemma_ranking_is_unique(records, o1, o2);
}

/// Sorting is idempotent: the report of a report is that report.
pub proof fn lemma_sort_is_idempotent(
    records: Seq<PerformanceRecord>,
    once: Seq<PerformanceRecord>,
    twice: Seq<PerformanceRecord>,
)
    requires
        is_report(records, once),
        is_report(once, twice),
    ensures
        twice == once,
{
    let order = choose|o: Seq<int>| #[trigger]
        is_ranking(records, o) && once == arranged(records, o);
    let same = Seq::new(once.len(), |k: int| k);
    assert forall|v: int| 0 <= v < once.len() implies #[trigger] same.contains(v) by {
        assert(same[v] == v);
    }
    assert forall|a: int, b: int| 0 <= a < b < same.len() implies ranks_before(
        once,
        #[trigger] same[a],
        #[trigger] same[b],
    ) by {
        assert(ranks_before(records, order[a], order[b]));
    }
    assert(is_ranking(once, same));
    assert(arranged(once, same) =~= once);
    lemma_report_is_unique(once, once, twice);
}

/// The report holds the records and nothing else: as many rows as there
/// are records, every record in some row, every row one of the records.
pub proof fn lemma_report_keeps_records(
    records: Seq<PerformanceRecord>,
    report: Seq<PerformanceRecord>,
)
    requires
        is_report(records, report),
    ensures
        report.len() == records.len(),
        forall|v: int| 0 <= v < records.len() ==> report.contains(#[trigger] records[v]),
        forall|k: int| 0 <= k < report.len() ==> records.contains(#[trigger] report[k]),
{
    let order = choose|o: Seq<int>| #[trigger]
        is_ranking(records, o) && report == arranged(records, o);
    assert forall|v: int| 0 <= v < records.len() implies report.contains(
        #[trigger] records[v],
    ) by {
        assert(order.contains(v));
        let m = choose|m: int| 0 <= m < order.len() && order[m] == v;
        assert(report[m] == records[v]);
    }
    assert forall|k: int| 0 <= k < report.len() implies records.contains(
        #[trigger] report[k],
    ) by {
        assert(records[order[k]] == report[k]);
    }
}

/// The report is ascending, by the exact changes and by the rounded percent
/// changes alike.
pub proof fn lemma_report_is_ascending(
    records: Seq<PerformanceRecord>,
    report: Seq<PerformanceRecord>,
    a: int,
    b: int,
)
    requires
        all_wf(records),
        is_report(records, report),
        0 <= a <= b < report.len(),
    ensures
        !report[b].below(report[a]),
        report[a].percent_change <= report[b].percent_change,
{
    let order = choose|o: Seq<int>| #[trigger]
        is_ranking(records, o) && report == arranged(records, o);
    let x = report[a];
    let y = report[b];
    assert(x == records[order[a]] && y == records[order[b]]);
    assert(x.wf() && y.wf());
    if a < b {
        assert(ranks_before(records, order[a], order[b]));
    }
    lemma_percent_change_monotonic(
        x.baseline_price as int,
        x.current_price as int,
        y.baseline_price as int,
        y.current_price as int,
    );
}

/// The first row of the report is the worst performer.
pub proof fn lemma_report_starts_with_worst(
    records: Seq<PerformanceRecord>,
    report: Seq<PerformanceRecord>,
    w: int,
)
    requires
        is_report(records, report),
        is_worst(records, w),
    ensures
        report[0] == records[w],
{
    let order = choose|o: Seq<int>| #[trigger]
        is_ranking(records, o) && report == arranged(records, o);
    assert(order.contains(w));
    let m = choose|m: int| 0 <= m < order.len() && order[m] == w;
    if m > 0 {
        assert(ranks_before(records, order[0], order[m]));
    }
}

proof fn lemma_rank_next(records: Seq<PerformanceRecord>, n: int, order: Seq<int>, p: int)
    requires
        all_wf(records),
        0 <= n < records.len(),
        is_ranking(records.take(n), order),
        0 <= p <= n,
        forall|k: int| p <= k < n ==> records[n].below(records[#[trigger] order[k]]),
        p > 0 ==> !records[n].below(records[order[p - 1]]),
    ensures
        is_ranking(records.take(n + 1), order.insert(p, n)),
        arranged(records.take(n + 1), order.insert(p, n)) == arranged(
            records.take(n),
            order,
        ).insert(p, records[n]),
{
    let before = records.take(n);
    let after = records.take(n + 1);
    let next = order.insert(p, n);
    let new = records[n];
    order.insert_ensures(p, n);
    assert(new.wf());
    assert forall|v: int| 0 <= v < after.len() implies #[trigger] next.contains(v) by {
        if v == n {
            assert(next[p] == v);
        } else {
            assert(order.contains(v));
            let m = choose|m: int| 0 <= m < order.len() && order[m] == v;
            if m < p {
                assert(next[m] == v);
            } else {
                assert(next[m + 1] == v);
            }
        }
    }
    assert forall|k: int| 0 <= k < p implies !new.below(records[#[trigger] order[k]]) by {
        let last = records[order[p - 1]];
        let r = records[order[k]];
        assert(last.wf() && r.wf());
        if k < p - 1 {
            assert(ranks_before(before, order[k], order[p - 1]));
            if new.below(r) {
                lemma_change_below_chain(
                    new.baseline_price as int,
                    new.current_price as int,
                    r.baseline_price as int,
                    r.current_price as int,
                    last.baseline_price as int,
                    last.current_price as int,
                );
            }
        }
    }
    assert forall|a: int, b: int| 0 <= a < b < next.len() implies ranks_before(
        after,
        #[trigger] next[a],
        #[trigger] next[b],
    ) by {
        if b == p {
            assert(next[a] == order[a]);
        } else if a == p {
            assert(next[b] == order[b - 1]);
        } else {
            let a0 = if a < p { a } else { a - 1 };
            let b0 = if b < p { b } else { b - 1 };
            assert(next[a] == order[a0] && next[b] == order[b0]);
            assert(ranks_before(before, order[a0], order[b0]));
        }
    }
    assert(arranged(after, next) =~= arranged(before, order).insert(p, new));
}

/// Sorts the records for the report: ascending by change, the worst
/// performer first, records of equal change in the order they came in.
pub fn sort_report(records: &Vec<PerformanceRecord>) -> (report: Vec<PerformanceRecord>)
    requires
        all_wf(records@),
    ensures
        is_report(records@, report@),
{
    let mut report: Vec<PerformanceRecord> = Vec::new();
    let ghost mut order: Seq<int> = Seq::empty();
    let mut n: usize = 0;
    while n < records.len()
        invariant
            all_wf(records@),
            n <= records.len(),
            is_ranking(records@.take(n as int), order),
            report@ == arranged(records@.take(n as int), order),
        decreases records.len() - n,
    {
        let record = &records[n];
        let mut p: usize = n;
        while p > 0 && record.is_below(&report[p - 1])
            invariant
                p <= n < records.len(),
                report.len() == n,
                *record == records[n as int],
                forall|k: int| p <= k < n ==> record.below(#[trigger] report[k]),
            decreases p,
        {
            p -= 1;
        }
        proof {
            assert forall|k: int| p <= k < n implies records[n as int].below(
                records[#[trigger] order[k]],
            ) by {
                assert(report[k] == records[order[k]]);
            }
            if p > 0 {
                assert(report[p - 1] == records[order[p - 1]]);
            }
            lemma_rank_next(records@, n as int, order, p as int);
            order = order.insert(p as int, n as int);
        }
        report.insert(p, record.duplicate());
        n += 1;
    }
    assert(records@.take(n as int) =~= records@);
    report
}

} // verus!
