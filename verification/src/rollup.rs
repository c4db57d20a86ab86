//! The bank books the commission on a payment as a row of its own, next to
//! the payment. Here each commission is added to its payment and leaves the
//! list.

use crate::ynab::YnabTransaction;
use vstd::prelude::*;

verus! {

/// Why a list of transactions cannot be merged.
#[derive(Debug, Clone, Copy, PartialEq, Eq)]
pub enum RollupError {
    /// The list holds commissions and no payment that they could belong to.
    NoPayment,
    /// A payment and its commissions come to more than an amount can hold.
    AmountTooLarge,
}

/// The sum of the amounts of the rows from index `lo` up to, not including,
/// index `hi`.
pub open spec fn total(txns: Seq<YnabTransaction>, lo: int, hi: int) -> int
    decreases hi - lo,
{
    if lo >= hi {
        0
    } else {
        total(txns, lo, hi - 1) + txns[hi - 1].amount
    }
}

/// The indices of the rows that are payments, not commissions, in order.
pub open spec fn payments(txns: Seq<YnabTransaction>) -> Seq<int>
    decreases txns.len(),
{
    if txns.len() == 0 {
        Seq::empty()
    } else if txns.last().needs_rollup {
        payments(txns.drop_last())
    } else {
        payments(txns.drop_last()).push(txns.len() - 1)
    }
}

/// Where the rows of the `k`-th payment begin. A payment takes the
/// commissions that follow it; the first payment also takes those that stand
/// before it.
pub open spec fn group_start(txns: Seq<YnabTransaction>, k: int) -> int {
    if k == 0 {
        0
    } else {
        payments(txns)[k]
    }
}

/// Where the rows of the `k`-th payment end: at the next payment, or with the
/// list.
pub open spec fn group_end(txns: Seq<YnabTransaction>, k: int) -> int {
    if k + 1 < payments(txns).len() {
        payments(txns)[k + 1]
    } else {
        txns.len() as int
    }
}

/// The amount of the `k`-th payment with its commissions.
pub open spec fn merged_amount(txns: Seq<YnabTransaction>, k: int) -> int {
    total(txns, group_start(txns, k), group_end(txns, k))
}

/// There are commissions, and no payment to add them to.
pub open spec fn orphaned(txns: Seq<YnabTransaction>) -> bool {
    txns.len() > 0 && payments(txns).len() == 0
}

/// Every payment with its commissions comes to an amount that can be held.
pub open spec fn mergeable(txns: Seq<YnabTransaction>) -> bool {
    forall|k: int|
        0 <= k < payments(txns).len() ==> i64::MIN <= #[trigger] merged_amount(txns, k)
            <= i64::MAX
}

/// The payments in order, each with the amount of its commissions added.
pub open spec fn merged(txns: Seq<YnabTransaction>) -> Seq<YnabTransaction> {
    Seq::new(
        payments(txns).len(),
        |k: int| txns[payments(txns)[k]].with_amount(merged_amount(txns, k)),
    )
}

/// The payments of the first `j` rows are the first payments of all rows, and
/// the later payments stand at index `j` or after it.
pub proof fn lemma_payments_take(txns: Seq<YnabTransaction>, j: int)
    requires
        0 <= j <= txns.len(),
    ensures
        payments(txns.take(j)).len() <= payments(txns).len(),
        payments(txns).take(payments(txns.take(j)).len() as int) == payments(txns.take(j)),
        forall|k: int|
            payments(txns.take(j)).len() <= k < payments(txns).len() ==> j <= #[trigger] payments(
                txns,
            )[k],
    decreases txns.len() - j,
{
    if j == txns.len() {
        assert(txns.take(j) =~= txns);
        assert(payments(txns).take(payments(txns).len() as int) =~= payments(txns));
    } else {
        lemma_payments_take(txns, j + 1);
        assert(txns.take(j + 1).drop_last() =~= txns.take(j));
        let shorter = payments(txns.take(j));
        let longer = payments(txns.take(j + 1));
        assert(payments(txns).take(shorter.len() as int) =~= shorter) by {
            assert(payments(txns).take(longer.len() as int).take(shorter.len() as int)
                =~= payments(txns).take(shorter.len() as int));
            assert(longer.take(shorter.len() as int) =~= shorter);
        }
        assert forall|k: int| shorter.len() <= k < payments(txns).len() implies j
            <= #[trigger] payments(txns)[k] by {
            if k < longer.len() {
                assert(payments(txns).take(longer.len() as int)[k] == longer[k]);
            }
        }
    }
}

/// Every payment index names a row of the list that is no commission, and
/// the indices rise.
pub proof fn lemma_payments_are_rows(txns: Seq<YnabTransaction>)
    ensures
        forall|k: int|
            0 <= k < payments(txns).len() ==> 0 <= #[trigger] payments(txns)[k] < txns.len()
                && !txns[payments(txns)[k]].needs_rollup,
        forall|k: int, l: int|
            0 <= k < l < payments(txns).len() ==> payments(txns)[k] < payments(txns)[l],
    decreases txns.len(),
{
    if txns.len() > 0 {
        let before = txns.drop_last();
        lemma_payments_are_rows(before);
        assert forall|k: int| 0 <= k < payments(txns).len() implies 0 <= #[trigger] payments(
            txns,
        )[k] < txns.len() && !txns[payments(txns)[k]].needs_rollup by {
            if k < payments(before).len() {
                assert(payments(txns)[k] == payments(before)[k]);
                assert(before[payments(before)[k]] == txns[payments(before)[k]]);
            }
        }
        assert forall|k: int, l: int| 0 <= k < l < payments(txns).len() implies payments(txns)[k]
            < payments(txns)[l] by {
            assert(payments(txns)[k] == payments(before)[k]);
            if l < payments(before).len() {
                assert(payments(txns)[l] == payments(before)[l]);
            }
        }
    }
}

/// Where the rows of the last of the payments `p` begin.
spec fn open_start(p: Seq<int>) -> int {
    if p.len() <= 1 {
        0
    } else {
        p.last()
    }
}

/// The state of the merge when the first `i` rows have been read: `out`
/// holds their payments, all but the last with its commissions added, and
/// `open` is what the last one and its commissions come to so far.
spec fn rolled(all: Seq<YnabTransaction>, i: int, out: Seq<YnabTransaction>, open: int) -> bool {
    let p = payments(all.take(i));
    &&& out.len() == p.len()
    &&& forall|k: int|
        0 <= k < p.len() - 1 ==> {
            let sum = total(
                all,
                if k == 0 {
                    0
                } else {
                    p[k]
                },
                p[k + 1],
            );
            &&& i64::MIN <= sum <= i64::MAX
            &&& #[trigger] out[k] == all[p[k]].with_amount(sum)
        }
    &&& p.len() > 0 ==> out.last() == all[p.last()]
    &&& open == total(all, open_start(p), i)
    &&& -i * 0x8000_0000_0000_0000 <= open <= i * 0x8000_0000_0000_0000
}

/// Adds each commission to the payment it belongs to and drops it from the
/// list. A commission belongs to the payment before it, whatever stands
/// between them being commissions too; those at the head of the list, with
/// no payment before them, belong to the first payment. What comes back are
/// the payments in their order.
pub fn merge_rollups(txns: Vec<YnabTransaction>) -> (r: Result<
    Vec<YnabTransaction>,
    RollupError,
>)
    ensures
        match r {
            Ok(out) => !orphaned(txns@) && mergeable(txns@) && out@ == merged(txns@),
            Err(RollupError::NoPayment) => orphaned(txns@),
            Err(RollupError::AmountTooLarge) => !mergeable(txns@),
        },
{
    let n: usize = txns.len();
    let ghost all = txns@;
    let mut out: Vec<YnabTransaction> = Vec::new();
    let mut open: i128 = 0;
    proof {
        assert(all.take(0) =~= Seq::<YnabTransaction>::empty());
    }
    for t in it: txns
        invariant
            it.seq() == all,
            n == all.len(),
            rolled(all, it.index() as int, out@, open as int),
    {
        let ghost i = it.index() as int;
        let ghost p = payments(all.take(i));
        proof {
            assert(all.take(i + 1).drop_last() =~= all.take(i));
            assert(all.take(i + 1).last() == t);
            lemma_payments_are_rows(all.take(i));
        }
        let ghost before = out@;
        if t.needs_rollup {
            open = open + t.amount as i128;
            proof {
                assert(payments(all.take(i + 1)) == p);
            }
        } else if out.len() == 0 {
            open = open + t.amount as i128;
            out.push(t);
            proof {
                assert(payments(all.take(i + 1)) == p.push(i));
            }
        } else {
            if open < -0x8000_0000_0000_0000 || open > 0x7fff_ffff_ffff_ffff {
                proof {
                    lemma_payments_take(all, i + 1);
                    let m = p.len() as int;
                    assert(payments(all).take(m + 1) == p.push(i));
                    assert(payments(all).take(m + 1)[m - 1] == p[m - 1]);
                    assert(payments(all).take(m + 1)[m] == i);
                    assert(merged_amount(all, m - 1) == open);
                }
                return Err(RollupError::AmountTooLarge);
            }
            let ghost sum = open as int;
            let mut last = out.pop().unwrap();
            last.amount = open as i64;
            out.push(last);
            open = t.amount as i128;
            out.push(t);
            proof {
                let grown = p.push(i);
                let m = p.len() as int;
                assert(payments(all.take(i + 1)) == grown);
                assert(total(all, i, i) == 0);
                assert(open_start(grown) == i);
                assert forall|k: int| 0 <= k < grown.len() - 1 implies {
                    let part = total(
                        all,
                        if k == 0 {
                            0
                        } else {
                            grown[k]
                        },
                        grown[k + 1],
                    );
                    &&& i64::MIN <= part <= i64::MAX
                    &&& #[trigger] out@[k] == all[grown[k]].with_amount(part)
                } by {
                    if k < m - 1 {
                        assert(out@[k] == before[k]);
                        assert(grown[k] == p[k] && grown[k + 1] == p[k + 1]);
                    } else {
                        assert(grown[k] == p.last() && grown[k + 1] == i);
                        assert(before.last() == all[p.last()]);
                        assert(out@[k] == before.last().with_amount(sum));
                    }
                }
            }
        }
    }
    proof {
        assert(all.take(n as int) =~= all);
        lemma_payments_are_rows(all);
    }
    if out.len() == 0 {
        if n == 0 {
            assert(out@ =~= merged(all));
            return Ok(out);
        }
        return Err(RollupError::NoPayment);
    }
    let ghost m = payments(all).len() as int;
    if open < -0x8000_0000_0000_0000 || open > 0x7fff_ffff_ffff_ffff {
        assert(merged_amount(all, m - 1) == open);
        return Err(RollupError::AmountTooLarge);
    }
    let mut last = out.pop().unwrap();
    last.amount = open as i64;
    out.push(last);
    proof {
        assert forall|k: int| 0 <= k < m implies i64::MIN <= #[trigger] merged_amount(all, k)
            <= i64::MAX && out@[k] == all[payments(all)[k]].with_amount(merged_amount(all, k)) by {
            if k < m - 1 {
            } else {
                assert(merged_amount(all, k) == open);
            }
        }
        assert(out@ =~= merged(all));
    }
    Ok(out)
}

/// A sum over a range is the sum over its two parts.
pub proof fn lemma_total_split(txns: Seq<YnabTransaction>, lo: int, mid: int, hi: int)
    requires
        lo <= mid <= hi,
    ensures
        total(txns, lo, hi) == total(txns, lo, mid) + total(txns, mid, hi),
    decreases hi - mid,
{
    if mid < hi {
        lemma_total_split(txns, lo, mid, hi - 1);
    }
}

proof fn lemma_merged_sum_so_far(txns: Seq<YnabTransaction>, k: int)
    requires
        mergeable(txns),
        1 <= k <= payments(txns).len(),
    ensures
        total(merged(txns), 0, k) == total(txns, 0, group_end(txns, k - 1)),
    decreases k,
{
    lemma_payments_are_rows(txns);
    let out = merged(txns);
    assert(out[k - 1].amount == merged_amount(txns, k - 1));
    if k == 1 {
        assert(total(out, 0, 0) == 0);
    } else {
        lemma_merged_sum_so_far(txns, k - 1);
        assert(group_end(txns, k - 2) == group_start(txns, k - 1));
        assert(payments(txns)[k - 1] < group_end(txns, k - 1)) by {
            if k < payments(txns).len() {
                assert(payments(txns)[k - 1] < payments(txns)[k]);
            }
        }
        lemma_total_split(txns, 0, group_start(txns, k - 1), group_end(txns, k - 1));
    }
}

/// What a merge gives back are the payments of the list, in their order and
/// changed in their amounts alone: no commission is among them, and their
/// amounts come to what the amounts of the whole list come to.
pub proof fn lemma_merge_keeps_the_sum(txns: Seq<YnabTransaction>)
    requires
        mergeable(txns),
        !orphaned(txns),
    ensures
        merged(txns).len() <= txns.len(),
        forall|k: int|
            0 <= k < merged(txns).len() ==> !(#[trigger] merged(txns)[k]).needs_rollup
                && merged(txns)[k] == txns[payments(txns)[k]].with_amount(
                merged(txns)[k].amount as int,
            ),
        total(merged(txns), 0, merged(txns).len() as int) == total(txns, 0, txns.len() as int),
{
    lemma_payments_are_rows(txns);
    let m = payments(txns).len() as int;
    if m > 0 {
        lemma_merged_sum_so_far(txns, m);
        assert(payments(txns)[m - 1] < txns.len());
        lemma_payments_count(txns);
    } else {
        assert(txns.len() == 0);
    }
}

/// There are no more payments than rows.
proof fn lemma_payments_count(txns: Seq<YnabTransaction>)
    ensures
        payments(txns).len() <= txns.len(),
    decreases txns.len(),
{
    if txns.len() > 0 {
        lemma_payments_count(txns.drop_last());
    }
}

} // verus!
