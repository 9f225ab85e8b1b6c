//! Laws of the snapshot engine: proved facts relating additions,
//! deletions and the snapshot table across operations.

use vstd::prelude::*;
use crate::ledger::{Ledger, TxRecord, TxOp, rec_delta, bal_upto, slot_delta, lemma_bal_push};

verus! {

/// Sum of the deltas to method `j` of the live transactions dated exactly
/// in month `m`.
pub open spec fn bal_in_month(txs: Seq<Option<TxRecord>>, m: int, j: int) -> int
    decreases txs.len(),
{
    if txs.len() == 0 {
        0
    } else {
        bal_in_month(txs.drop_last(), m, j) + (match txs.last() {
            Some(t) => if t.month_idx == m {
                rec_delta(t, j)
            } else {
                0
            },
            None => 0,
        })
    }
}

/// The balance as of month `m` is the balance as of month `m - 1` plus
/// what month `m` itself contributed.
proof fn lemma_bal_month_step(txs: Seq<Option<TxRecord>>, m: int, j: int)
    ensures
        bal_upto(txs, m, j) == bal_upto(txs, m - 1, j) + bal_in_month(txs, m, j),
    decreases txs.len(),
{
    if txs.len() > 0 {
        lemma_bal_month_step(txs.drop_last(), m, j);
    }
}

/// Zero-sum reversal: adding a transaction and then deleting it leaves
/// every snapshot cell exactly as it was before the addition, whatever
/// the transaction was.
pub proof fn lemma_zero_sum_reversal(a: Ledger, b: Ledger, c: Ledger, rec: TxRecord, id: u32)
    requires
        a.wf(),
        b.wf(),
        c.wf(),
        b.same_config(&a),
        c.same_config(&a),
        id == a.next_id,
        b.txs@ == a.txs@.push(Some(rec)),
        c.txs@ == b.txs@.update(id - 1, None::<TxRecord>),
    ensures
        forall|r: int, j: int|
            0 <= r < a.snapshots@.len() && 0 <= j < a.methods@.len() ==> #[trigger] c.snap_at(r, j)
                == a.snap_at(r, j),
{
    assert(a.method_names().len() == a.methods@.len());
    assert(c.method_names().len() == c.methods@.len());
    assert(c.txs@ =~= a.txs@.push(None::<TxRecord>));
    assert forall|r: int, j: int|
        0 <= r < a.snapshots@.len() && 0 <= j < a.methods@.len() implies #[trigger] c.snap_at(r, j)
        == a.snap_at(r, j) by {
        lemma_bal_push(a.txs@, None::<TxRecord>, a.row_month(r), j);
        assert(slot_delta(None::<TxRecord>, a.row_month(r), j) == 0);
        assert(c.row_month(r) == a.row_month(r));
        assert(c.snap_at(r, j) == bal_upto(c.txs@, c.row_month(r), j));
        assert(a.snap_at(r, j) == bal_upto(a.txs@, a.row_month(r), j));
    }
}

/// Transfer neutrality: a transfer moves value between its two methods
/// but conserves the total the two hold together, in every snapshot row
/// and in particular across all time.
pub proof fn lemma_transfer_neutrality(a: Ledger, b: Ledger, rec: TxRecord, f: usize, t: usize)
    requires
        a.wf(),
        b.wf(),
        b.same_config(&a),
        rec.op == TxOp::Transfer(f, t),
        b.txs@ == a.txs@.push(Some(rec)),
    ensures
        b.snap_at(b.months_total as int, f as int) + b.snap_at(b.months_total as int, t as int)
            == a.snap_at(a.months_total as int, f as int) + a.snap_at(
            a.months_total as int,
            t as int,
        ),
{
    let m = a.months_total as int;
    assert(b.txs@[a.txs@.len() as int] is Some);
    assert(b.tx_wf(rec));
    assert(a.method_names().len() == a.methods@.len());
    assert(b.method_names().len() == b.methods@.len());
    assert(f < a.methods@.len() && t < a.methods@.len() && f != t);
    lemma_bal_push(a.txs@, Some(rec), m, f as int);
    lemma_bal_push(a.txs@, Some(rec), m, t as int);
    assert(rec.month_idx <= m);
    assert(rec_delta(rec, f as int) + rec_delta(rec, t as int) == 0);
    assert(b.row_month(m) == m && a.row_month(m) == m);
    assert(b.snap_at(m, f as int) == bal_upto(b.txs@, m, f as int));
    assert(b.snap_at(m, t as int) == bal_upto(b.txs@, m, t as int));
    assert(a.snap_at(m, f as int) == bal_upto(a.txs@, m, f as int));
    assert(a.snap_at(m, t as int) == bal_upto(a.txs@, m, t as int));
}

/// Order independence: adding two transactions in either order yields the
/// same snapshot table.
pub proof fn lemma_order_independence(
    a: Ledger,
    b1: Ledger,
    c1: Ledger,
    b2: Ledger,
    c2: Ledger,
    t1: TxRecord,
    t2: TxRecord,
)
    requires
        a.wf(),
        b1.wf(),
        c1.wf(),
        b2.wf(),
        c2.wf(),
        b1.same_config(&a),
        c1.same_config(&a),
        b2.same_config(&a),
        c2.same_config(&a),
        b1.txs@ == a.txs@.push(Some(t1)),
        c1.txs@ == b1.txs@.push(Some(t2)),
        b2.txs@ == a.txs@.push(Some(t2)),
        c2.txs@ == b2.txs@.push(Some(t1)),
    ensures
        forall|r: int, j: int|
            0 <= r < c1.snapshots@.len() && 0 <= j < c1.methods@.len() ==> #[trigger] c1.snap_at(
                r,
                j,
            ) == c2.snap_at(r, j),
{
    assert(c1.method_names().len() == c1.methods@.len());
    assert(c2.method_names().len() == c2.methods@.len());
    assert forall|r: int, j: int|
        0 <= r < c1.snapshots@.len() && 0 <= j < c1.methods@.len() implies #[trigger] c1.snap_at(
        r,
        j,
    ) == c2.snap_at(r, j) by {
        let m = a.row_month(r);
        lemma_bal_push(a.txs@, Some(t1), m, j);
        lemma_bal_push(b1.txs@, Some(t2), m, j);
        lemma_bal_push(a.txs@, Some(t2), m, j);
        lemma_bal_push(b2.txs@, Some(t1), m, j);
        assert(c1.row_month(r) == m && c2.row_month(r) == m);
        assert(c1.snap_at(r, j) == bal_upto(c1.txs@, m, j));
        assert(c2.snap_at(r, j) == bal_upto(c2.txs@, m, j));
    }
}

/// Idempotent deletion guard: once a transaction is deleted its id is no
/// longer live, so by the contract of `Ledger::delete_tx` a second
/// deletion of the same id fails with `NotFound` and mutates nothing.
pub proof fn lemma_idempotent_deletion_guard(a: Ledger, b: Ledger, id: u32)
    requires
        a.wf(),
        a.live(id),
        b.txs@ == a.txs@.update(id - 1, None::<TxRecord>),
    ensures
        !b.live(id),
{
}

/// The global snapshot invariant, row against row: two neighbouring month
/// rows differ by exactly the deltas of the transactions dated inside the
/// later row's month.
pub proof fn lemma_snapshot_row_difference(l: Ledger, r: int, j: int)
    requires
        l.wf(),
        1 <= r < l.months_total,
        0 <= j < l.methods@.len(),
    ensures
        l.snap_at(r, j) - l.snap_at(r - 1, j) == bal_in_month(l.txs@, r + 1, j),
{
    lemma_bal_month_step(l.txs@, r + 1, j);
    assert(l.row_month(r) == r + 1);
    assert(l.row_month(r - 1) == r);
    assert(l.snap_at(r, j) == bal_upto(l.txs@, r + 1, j));
    assert(l.snap_at(r - 1, j) == bal_upto(l.txs@, r, j));
}

/// The terminal all-time row always equals the last month row: every
/// stored transaction falls inside the configured span.
pub proof fn lemma_terminal_matches_last_month(l: Ledger, j: int)
    requires
        l.wf(),
        0 <= j < l.methods@.len(),
    ensures
        l.snap_at(l.months_total as int, j) == l.snap_at(l.months_total - 1, j),
{
    assert(l.row_month(l.months_total as int) == l.months_total);
    assert(l.row_month(l.months_total - 1) == l.months_total);
}

} // verus!
