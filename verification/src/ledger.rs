//! The ledger snapshot engine.
//!
//! A [`Ledger`] holds an ordered registry of method names, a transaction
//! log indexed by permanent one-based sequence ids, and a snapshot table
//! with one row per month of the configured span plus a terminal all-time
//! row. Every snapshot cell equals the sum of the signed deltas of the
//! live transactions dated in or before that row's month — the invariant
//! [`Ledger::wf`] that every mutation preserves.

use vstd::prelude::*;
use vstd::arithmetic::mul::lemma_mul_inequality;
use crate::dates::{valid_date_str, date_year, date_month, date_day, month_index_of, parse_date};
use crate::errors::{FaultField, LedgerError};
use crate::money::{valid_amount, amount_cents, parse_amount, balance_text_short};
use crate::money::format_cents_short;

verus! {

/// What a transaction does: credit one method, debit one method, or move
/// value between two methods. Payloads are indices into the method registry.
#[derive(Clone, Copy, Debug, PartialEq, Eq, Structural)]
pub enum TxOp {
    /// Credit the method: `+amount`.
    Income(usize),
    /// Debit the method: `-amount`.
    Expense(usize),
    /// Move value: `-amount` at the first (from) method, `+amount` at the
    /// second (to) method.
    Transfer(usize, usize),
}

/// One stored transaction: its date, free text, operation, amount in cents,
/// the month index its date maps to, and its change row — the signed delta
/// it applied to each method.
#[derive(Debug)]
pub struct TxRecord {
    /// Four-digit year of the date.
    pub year: u16,
    /// Month of the date, 1..=12.
    pub month: u8,
    /// Day of the date, 1..=31.
    pub day: u8,
    /// Free-text details.
    pub details: String,
    /// The operation and the methods it touches.
    pub op: TxOp,
    /// The amount in cents, always positive.
    pub amount: i64,
    /// Cached month index of the date, 1..=months_total.
    pub month_idx: usize,
    /// Change row: the signed delta per method this transaction applied.
    pub deltas: Vec<i64>,
}

/// Signed delta an operation of the given amount applies to method `j`.
pub open spec fn op_delta(op: TxOp, amount: int, j: int) -> int {
    match op {
        TxOp::Income(k) => if j == k {
            amount
        } else {
            0
        },
        TxOp::Expense(k) => if j == k {
            -amount
        } else {
            0
        },
        TxOp::Transfer(f, t) => if j == f {
            -amount
        } else if j == t {
            amount
        } else {
            0
        },
    }
}

/// Signed delta a stored transaction applies to method `j`.
pub open spec fn rec_delta(t: TxRecord, j: int) -> int {
    op_delta(t.op, t.amount as int, j)
}

/// Whether the method indices of an operation lie below `n`, and a
/// transfer moves between two distinct methods.
pub open spec fn op_in_range(op: TxOp, n: int) -> bool {
    match op {
        TxOp::Income(k) => k < n,
        TxOp::Expense(k) => k < n,
        TxOp::Transfer(f, t) => f < n && t < n && f != t,
    }
}

/// Contribution of one log slot to the balance as of the end of month `m`:
/// the delta of its transaction if the slot is live and dated in or before
/// `m`, else nothing.
pub open spec fn slot_delta(o: Option<TxRecord>, m: int, j: int) -> int {
    match o {
        Some(t) => if t.month_idx <= m {
            rec_delta(t, j)
        } else {
            0
        },
        None => 0,
    }
}

/// Balance of method `j` as of the end of month `m`: the sum of the deltas
/// of all live transactions dated in or before `m`.
pub open spec fn bal_upto(txs: Seq<Option<TxRecord>>, m: int, j: int) -> int
    decreases txs.len(),
{
    if txs.len() == 0 {
        0
    } else {
        bal_upto(txs.drop_last(), m, j) + slot_delta(txs.last(), m, j)
    }
}

/// Appending a slot adds exactly that slot's contribution to every balance.
pub proof fn lemma_bal_push(txs: Seq<Option<TxRecord>>, o: Option<TxRecord>, m: int, j: int)
    ensures
        bal_upto(txs.push(o), m, j) == bal_upto(txs, m, j) + slot_delta(o, m, j),
{
    assert(txs.push(o).drop_last() =~= txs);
    assert(txs.push(o).last() == o);
}

/// Replacing a slot removes its old contribution and adds the new one.
pub proof fn lemma_bal_update(txs: Seq<Option<TxRecord>>, i: int, o: Option<TxRecord>, m: int, j: int)
    requires
        0 <= i < txs.len(),
    ensures
        bal_upto(txs.update(i, o), m, j) == bal_upto(txs, m, j) - slot_delta(txs[i], m, j)
            + slot_delta(o, m, j),
    decreases txs.len(),
{
    let u = txs.update(i, o);
    if i == txs.len() - 1 {
        assert(u.drop_last() =~= txs.drop_last());
        assert(u.last() == o);
    } else {
        assert(u.drop_last() =~= txs.drop_last().update(i, o));
        assert(u.last() == txs.last());
        assert(txs.drop_last()[i] == txs[i]);
        lemma_bal_update(txs.drop_last(), i, o, m, j);
    }
}

/// Every balance is bounded by the length of the log times the largest
/// amount a transaction can carry.
pub proof fn lemma_bal_bound(txs: Seq<Option<TxRecord>>, m: int, j: int)
    requires
        forall|i: int| 0 <= i < txs.len() ==> (#[trigger] txs[i]) is Some ==> txs[i]->0.amount >= 0,
    ensures
        -(txs.len() as int) * (i64::MAX as int) <= bal_upto(txs, m, j) <= (txs.len() as int) * (
        i64::MAX as int),
    decreases txs.len(),
{
    if txs.len() > 0 {
        let t = txs.drop_last();
        assert(forall|i: int| 0 <= i < t.len() ==> t[i] == txs[i]);
        lemma_bal_bound(t, m, j);
        assert(-(i64::MAX as int) <= slot_delta(txs.last(), m, j) <= i64::MAX as int);
    }
}

/// A method index no transaction reaches always balances to zero.
pub proof fn lemma_bal_unreferenced(txs: Seq<Option<TxRecord>>, n: int, m: int, j: int)
    requires
        j >= n,
        forall|i: int| 0 <= i < txs.len() ==> (#[trigger] txs[i]) is Some ==> op_in_range(
            txs[i]->0.op,
            n,
        ),
    ensures
        bal_upto(txs, m, j) == 0,
    decreases txs.len(),
{
    if txs.len() > 0 {
        let t = txs.drop_last();
        assert(forall|i: int| 0 <= i < t.len() ==> t[i] == txs[i]);
        lemma_bal_unreferenced(t, n, m, j);
        assert(slot_delta(txs.last(), m, j) == 0);
    }
}

/// Index of `name` in the registry scanning from position `i`, or the
/// registry's length if `name` does not occur at or after `i`.
pub open spec fn find_from(ms: Seq<Seq<char>>, name: Seq<char>, i: int) -> int
    decreases ms.len() - i,
{
    if i < 0 || i >= ms.len() {
        ms.len() as int
    } else if ms[i] == name {
        i
    } else {
        find_from(ms, name, i + 1)
    }
}

/// Where the scan starts within bounds, it yields either a position at or
/// after the start holding `name`, or the length when `name` is absent.
pub proof fn lemma_find_from_props(ms: Seq<Seq<char>>, name: Seq<char>, i: int)
    requires
        0 <= i <= ms.len(),
    ensures
        i <= find_from(ms, name, i) <= ms.len(),
        find_from(ms, name, i) < ms.len() ==> ms[find_from(ms, name, i)] == name,
        forall|k: int| i <= k < ms.len() && ms[k] == name ==> find_from(ms, name, i) <= k,
    decreases ms.len() - i,
{
    if i < ms.len() && ms[i] != name {
        lemma_find_from_props(ms, name, i + 1);
    }
}

/// Whether all names in a registry are distinct.
pub open spec fn distinct_names(ms: Seq<Seq<char>>) -> bool {
    forall|a: int, b: int| 0 <= a < b < ms.len() ==> ms[a] != ms[b]
}

/// Whether the four characters at position `i` spell the transfer
/// separator `" to "`.
pub open spec fn sep_at(s: Seq<char>, i: int) -> bool {
    s.subrange(i, i + 4) == " to "@
}

/// Position of the first transfer separator at or after `i`, or `s.len()`
/// if none occurs.
pub open spec fn first_sep(s: Seq<char>, i: int) -> int
    decreases s.len() - i,
{
    if i < 0 || i + 4 > s.len() {
        s.len() as int
    } else if sep_at(s, i) {
        i
    } else {
        first_sep(s, i + 1)
    }
}

/// The operation a method descriptor and kind resolve to, if any. A
/// transfer descriptor is cut at its first `" to "`: the prefix names the
/// from method, the rest the to method, which must be registered and
/// distinct. Other kinds name a single registered method.
pub open spec fn lookup_op(ms: Seq<Seq<char>>, desc: Seq<char>, kind: Seq<char>) -> Option<TxOp> {
    if kind == "Transfer"@ {
        let p = first_sep(desc, 0);
        if p < desc.len() {
            let f = find_from(ms, desc.subrange(0, p), 0);
            let t = find_from(ms, desc.subrange(p + 4, desc.len() as int), 0);
            if f < ms.len() && t < ms.len() && f != t {
                Some(TxOp::Transfer(f as usize, t as usize))
            } else {
                None
            }
        } else {
            None
        }
    } else {
        let k = find_from(ms, desc, 0);
        if k < ms.len() {
            if kind == "Income"@ {
                Some(TxOp::Income(k as usize))
            } else {
                Some(TxOp::Expense(k as usize))
            }
        } else {
            None
        }
    }
}

/// Cuts a transfer descriptor at its first `" to "` separator.
fn split_transfer<'a>(desc: &'a str) -> (r: Option<(&'a str, &'a str)>)
    ensures
        r is Some <==> first_sep(desc@, 0) < desc@.len(),
        r matches Some((f, t)) ==> {
            let p = first_sep(desc@, 0);
            &&& f@ == desc@.subrange(0, p)
            &&& t@ == desc@.subrange(p + 4, desc@.len() as int)
        },
{
    let n = desc.unicode_len();
    let mut p: usize = n;
    let mut i: usize = 0;
    while n >= 4 && i <= n - 4
        invariant_except_break
            p == n,
        invariant
            0 <= i <= n,
            n == desc@.len(),
            p <= n,
            p == n ==> first_sep(desc@, 0) == first_sep(desc@, i as int),
            p < n ==> first_sep(desc@, 0) == p && p + 4 <= n,
        ensures
            p <= n,
            n == desc@.len(),
            p == n ==> first_sep(desc@, 0) == n,
            p < n ==> first_sep(desc@, 0) == p && p + 4 <= n,
        decreases n - i,
    {
        let c0 = desc.get_char(i);
        let c1 = desc.get_char(i + 1);
        let c2 = desc.get_char(i + 2);
        let c3 = desc.get_char(i + 3);
        proof {
            reveal_strlit(" to ");
        }
        if c0 == ' ' && c1 == 't' && c2 == 'o' && c3 == ' ' {
            proof {
                let w = desc@.subrange(i as int, i + 4);
                assert(w[0] == ' ' && w[1] == 't' && w[2] == 'o' && w[3] == ' ');
                assert(w =~= " to "@);
                assert(sep_at(desc@, i as int));
                assert(first_sep(desc@, i as int) == i);
            }
            p = i;
            break;
        }
        proof {
            let w = desc@.subrange(i as int, i + 4);
            assert(w[0] == desc@[i as int] && w[1] == desc@[i + 1] && w[2] == desc@[i + 2] && w[3]
                == desc@[i + 3]);
            assert(!sep_at(desc@, i as int));
        }
        i += 1;
        assert(i + 4 > n ==> first_sep(desc@, i as int) == n);
    }
    if p == n {
        proof {
            if n < 4 {
                assert(first_sep(desc@, 0) == n);
            }
        }
        None
    } else {
        let f = desc.substring_char(0, p);
        let t = desc.substring_char(p + 4, n);
        Some((f, t))
    }
}

/// Character-wise string equality.
fn str_eq(a: &str, b: &str) -> (r: bool)
    ensures
        r == (a@ == b@),
{
    let na = a.unicode_len();
    let nb = b.unicode_len();
    if na != nb {
        return false;
    }
    let mut i: usize = 0;
    while i < na
        invariant
            0 <= i <= na,
            na == a@.len(),
            nb == b@.len(),
            na == nb,
            forall|k: int| 0 <= k < i ==> a@[k] == b@[k],
        decreases na - i,
    {
        let ca = a.get_char(i);
        let cb = b.get_char(i);
        if ca != cb {
            return false;
        }
        i += 1;
    }
    proof {
        assert(a@ =~= b@);
    }
    true
}

/// Index of `name` in `methods`, or `methods.len()` when unregistered.
fn find_method_idx(methods: &Vec<String>, name: &str) -> (r: usize)
    ensures
        r == find_from(methods.deep_view(), name@, 0),
        r <= methods@.len(),
        r < methods@.len() ==> methods.deep_view()[r as int] == name@,
{
    let ghost ms = methods.deep_view();
    proof {
        assert(ms.len() == methods@.len());
        lemma_find_from_props(ms, name@, 0);
    }
    let n = methods.len();
    let mut i: usize = 0;
    while i < n
        invariant
            0 <= i <= n,
            n == methods@.len(),
            ms == methods.deep_view(),
            ms.len() == n,
            find_from(ms, name@, 0) == find_from(ms, name@, i as int),
        ensures
            0 <= i <= n,
            n == methods@.len(),
            ms == methods.deep_view(),
            i < n ==> find_from(ms, name@, 0) == i,
            i == n ==> find_from(ms, name@, 0) == n,
        decreases n - i,
    {
        proof {
            assert(ms[i as int] == methods@[i as int]@);
        }
        if str_eq(methods[i].as_str(), name) {
            assert(find_from(ms, name@, i as int) == i);
            break;
        }
        i += 1;
        assert(i == n ==> find_from(ms, name@, i as int) == n);
    }
    i
}

/// The verified ledger: method registry, transaction log, and the
/// materialized snapshot table the log determines.
pub struct Ledger {
    /// First year of the configured span; month indices count from here.
    pub epoch_year: u16,
    /// Number of configured years, at least one.
    pub year_span: u16,
    /// Number of month rows: twelve per configured year.
    pub months_total: usize,
    /// Ordered registry of method names; append-only, names distinct.
    pub methods: Vec<String>,
    /// One row per month index 1..=months_total at positions 0..months_total-1,
    /// plus the terminal all-time row at position months_total. One cell of
    /// cents per method.
    pub snapshots: Vec<Vec<i128>>,
    /// The log: position `i` holds the transaction with id `i + 1`, or
    /// nothing if that id was deleted. Ids are never reused.
    pub txs: Vec<Option<TxRecord>>,
    /// The id the next added transaction will get: log length plus one.
    pub next_id: u32,
}

impl Ledger {
    /// The registry as a sequence of character sequences.
    pub open spec fn method_names(&self) -> Seq<Seq<char>> {
        self.methods.deep_view()
    }

    /// Snapshot cell at row `r`, method `j`, as unbounded cents.
    pub open spec fn snap_at(&self, r: int, j: int) -> int {
        self.snapshots@[r]@[j] as int
    }

    /// The month whose end a snapshot row reports: row `r` below the
    /// terminal row reports month `r + 1`; the terminal row reports the
    /// last configured month.
    pub open spec fn row_month(&self, r: int) -> int {
        if r < self.months_total {
            r + 1
        } else {
            self.months_total as int
        }
    }

    /// Whether a transaction with this id is live in the log.
    pub open spec fn live(&self, id: u32) -> bool {
        &&& 1 <= id
        &&& id <= self.txs@.len()
        &&& self.txs@[id - 1] is Some
    }

    /// Well-formedness of one stored transaction against this ledger's
    /// configuration.
    pub open spec fn tx_wf(&self, t: TxRecord) -> bool {
        &&& 1 <= t.month <= 12
        &&& 1 <= t.day <= 31
        &&& self.epoch_year <= t.year
        &&& t.month_idx == month_index_of(t.year as int, t.month as int, self.epoch_year as int)
        &&& 1 <= t.month_idx <= self.months_total
        &&& t.amount >= 1
        &&& t.deltas@.len() <= self.methods@.len()
        &&& op_in_range(t.op, t.deltas@.len() as int)
        &&& forall|j: int| 0 <= j < t.deltas@.len() ==> t.deltas@[j] == rec_delta(t, j)
    }

    /// The ledger invariant: configuration shape, distinct method names,
    /// well-formed log entries, and every snapshot cell equal to the sum
    /// of deltas of live transactions dated in or before its row's month.
    pub open spec fn wf(&self) -> bool {
        &&& self.year_span >= 1
        &&& self.months_total == 12 * (self.year_span as int)
        &&& self.methods@.len() >= 1
        &&& distinct_names(self.method_names())
        &&& self.snapshots@.len() == self.months_total + 1
        &&& forall|r: int|
            0 <= r < self.snapshots@.len() ==> (#[trigger] self.snapshots@[r])@.len()
                == self.methods@.len()
        &&& self.next_id == self.txs@.len() + 1
        &&& self.txs@.len() + 1 <= u32::MAX
        &&& forall|i: int|
            0 <= i < self.txs@.len() ==> (#[trigger] self.txs@[i]) is Some ==> self.tx_wf(
                self.txs@[i]->0,
            )
        &&& forall|r: int, j: int|
            0 <= r < self.snapshots@.len() && 0 <= j < self.methods@.len()
                ==> #[trigger] self.snap_at(r, j) == bal_upto(self.txs@, self.row_month(r), j)
    }

    /// Frame for mutations that only touch the snapshot table: every other
    /// field agrees with `o`.
    pub open spec fn config_frame(&self, o: &Ledger) -> bool {
        &&& self.epoch_year == o.epoch_year
        &&& self.year_span == o.year_span
        &&& self.months_total == o.months_total
        &&& self.methods == o.methods
        &&& self.next_id == o.next_id
    }

    /// Whether two ledgers share epoch, span and method registry.
    pub open spec fn same_config(&self, other: &Ledger) -> bool {
        &&& self.epoch_year == other.epoch_year
        &&& self.year_span == other.year_span
        &&& self.months_total == other.months_total
        &&& self.method_names() == other.method_names()
    }

    /// Creates a ledger over the given methods spanning `year_span` years
    /// from the start of `epoch_year`, every snapshot cell zero. Rejects
    /// an empty span, an empty registry, and duplicate method names.
    pub fn new(epoch_year: u16, year_span: u16, tx_methods: Vec<String>) -> (r: Result<
        Ledger,
        LedgerError,
    >)
        ensures
            r is Ok <==> year_span >= 1 && tx_methods@.len() >= 1 && distinct_names(
                tx_methods.deep_view(),
            ),
            r matches Err(e) ==> e == (if year_span == 0 {
                LedgerError::OutOfRange
            } else {
                LedgerError::Validation(FaultField::Method)
            }),
            r matches Ok(l) ==> {
                &&& l.wf()
                &&& l.epoch_year == epoch_year
                &&& l.year_span == year_span
                &&& l.months_total == 12 * (year_span as int)
                &&& l.method_names() == tx_methods.deep_view()
                &&& l.txs@.len() == 0
                &&& l.next_id == 1
                &&& forall|rr: int, j: int|
                    0 <= rr < l.snapshots@.len() && 0 <= j < l.methods@.len()
                        ==> #[trigger] l.snap_at(rr, j) == 0
            },
    {
        if year_span == 0 {
            return Err(LedgerError::OutOfRange);
        }
        let n = tx_methods.len();
        if n == 0 {
            return Err(LedgerError::Validation(FaultField::Method));
        }
        let ghost ms = tx_methods.deep_view();
        proof {
            assert(ms.len() == n);
        }

        // reject duplicate method names
        let mut a: usize = 0;
        while a < n
            invariant
                0 <= a <= n,
                n == tx_methods@.len(),
                ms == tx_methods.deep_view(),
                year_span >= 1,
                n >= 1,
                forall|x: int, y: int| 0 <= x < y < n && x < a ==> ms[x] != ms[y],
            decreases n - a,
        {
            let mut b: usize = a + 1;
            while b < n
                invariant
                    0 <= a < b <= n,
                    n == tx_methods@.len(),
                    ms == tx_methods.deep_view(),
                    year_span >= 1,
                    n >= 1,
                    forall|x: int, y: int| 0 <= x < y < n && x < a ==> ms[x] != ms[y],
                    forall|y: int| a < y < b ==> ms[a as int] != ms[y],
                decreases n - b,
            {
                proof {
                    assert(ms[a as int] == tx_methods@[a as int]@);
                    assert(ms[b as int] == tx_methods@[b as int]@);
                }
                if str_eq(tx_methods[a].as_str(), tx_methods[b].as_str()) {
                    return Err(LedgerError::Validation(FaultField::Method));
                }
                b += 1;
            }
            a += 1;
        }
        assert(distinct_names(ms));

        let months_total: usize = 12 * (year_span as usize);
        let rows: usize = months_total + 1;
        let mut snapshots: Vec<Vec<i128>> = Vec::new();
        let mut r: usize = 0;
        while r < rows
            invariant
                0 <= r <= rows,
                snapshots@.len() == r,
                forall|k: int|
                    0 <= k < r ==> (#[trigger] snapshots@[k])@.len() == n,
                forall|k: int, j: int|
                    0 <= k < r && 0 <= j < n ==> (#[trigger] snapshots@[k]@[j]) == 0i128,
            decreases rows - r,
        {
            let mut row: Vec<i128> = Vec::new();
            let mut j: usize = 0;
            while j < n
                invariant
                    0 <= j <= n,
                    row@.len() == j,
                    forall|k: int| 0 <= k < j ==> row@[k] == 0i128,
                decreases n - j,
            {
                row.push(0i128);
                j += 1;
            }
            snapshots.push(row);
            r += 1;
        }

        let l = Ledger {
            epoch_year,
            year_span,
            months_total,
            methods: tx_methods,
            snapshots,
            txs: Vec::new(),
            next_id: 1,
        };
        proof {
            assert(l.txs@.len() == 0);
            assert(forall|m: int, j: int| bal_upto(l.txs@, m, j) == 0);
            assert(l.wf());
        }
        Ok(l)
    }

    /// The error `add_tx` reports for these inputs, if any: an unknown
    /// kind, then a malformed date, then an unresolvable method
    /// descriptor, then a malformed, non-positive or unrepresentable
    /// amount, then a date outside the configured span. `None` means the
    /// inputs are accepted.
    pub open spec fn add_error_spec(
        &self,
        date: Seq<char>,
        desc: Seq<char>,
        amount: Seq<char>,
        kind: Seq<char>,
    ) -> Option<LedgerError> {
        if !(kind == "Income"@ || kind == "Expense"@ || kind == "Transfer"@) {
            Some(LedgerError::Validation(FaultField::Kind))
        } else if !valid_date_str(date) {
            Some(LedgerError::Validation(FaultField::Date))
        } else if lookup_op(self.method_names(), desc, kind) is None {
            Some(LedgerError::Validation(FaultField::Method))
        } else if !(valid_amount(amount) && 0 < amount_cents(amount) <= i64::MAX) {
            Some(LedgerError::Validation(FaultField::Amount))
        } else if date_year(date) < self.epoch_year || month_index_of(
            date_year(date),
            date_month(date),
            self.epoch_year as int,
        ) > self.months_total {
            Some(LedgerError::OutOfRange)
        } else {
            None
        }
    }

    /// Validates and stores one transaction, assigns it the next sequence
    /// id, and propagates its per-method delta forward into every snapshot
    /// row from its month through the terminal row. Earlier rows do not
    /// change. On any error the ledger is left untouched.
    pub fn add_tx(
        &mut self,
        date: &str,
        details: &str,
        tx_method: &str,
        amount: &str,
        tx_type: &str,
    ) -> (r: Result<u32, LedgerError>)
        requires
            old(self).wf(),
            old(self).next_id < u32::MAX,
        ensures
            final(self).wf(),
            final(self).same_config(old(self)),
            match r {
                Ok(id) => {
                    &&& old(self).add_error_spec(date@, tx_method@, amount@, tx_type@) is None
                    &&& id == old(self).next_id
                    &&& final(self).next_id == old(self).next_id + 1
                    &&& final(self).txs@.len() == old(self).txs@.len() + 1
                    &&& forall|i: int|
                        0 <= i < old(self).txs@.len() ==> final(self).txs@[i] == old(self).txs@[i]
                    &&& final(self).txs@[old(self).txs@.len() as int] is Some
                    &&& {
                        let t = final(self).txs@[old(self).txs@.len() as int]->0;
                        &&& t.year == date_year(date@)
                        &&& t.month == date_month(date@)
                        &&& t.day == date_day(date@)
                        &&& t.details@ == details@
                        &&& Some(t.op) == lookup_op(old(self).method_names(), tx_method@, tx_type@)
                        &&& t.amount == amount_cents(amount@)
                        &&& t.month_idx == month_index_of(
                            date_year(date@),
                            date_month(date@),
                            old(self).epoch_year as int,
                        )
                        &&& final(self).tx_wf(t)
                        &&& forall|rr: int, j: int|
                            0 <= rr < final(self).snapshots@.len()
                                && 0 <= j < final(self).methods@.len()
                                ==> #[trigger] final(self).snap_at(rr, j)
                                == old(self).snap_at(rr, j)
                                + (if final(self).row_month(rr) >= t.month_idx {
                                rec_delta(t, j)
                            } else {
                                0
                            })
                    }
                },
                Err(e) => {
                    &&& Some(e) == old(self).add_error_spec(date@, tx_method@, amount@, tx_type@)
                    &&& *final(self) == *old(self)
                },
            },
    {
        let ghost ms = self.method_names();

        // classify the kind
        let is_income = str_eq(tx_type, "Income");
        let is_expense = str_eq(tx_type, "Expense");
        let is_transfer = str_eq(tx_type, "Transfer");
        if !is_income && !is_expense && !is_transfer {
            return Err(LedgerError::Validation(FaultField::Kind));
        }

        // parse the date
        let (y, mth, day) = match parse_date(date) {
            Some(v) => v,
            None => {
                return Err(LedgerError::Validation(FaultField::Date));
            },
        };

        // resolve the method descriptor
        let n = self.methods.len();
        let op: TxOp = if is_transfer {
            match split_transfer(tx_method) {
                None => {
                    return Err(LedgerError::Validation(FaultField::Method));
                },
                Some((f_str, t_str)) => {
                    let fi = find_method_idx(&self.methods, f_str);
                    let ti = find_method_idx(&self.methods, t_str);
                    if fi >= n || ti >= n || fi == ti {
                        return Err(LedgerError::Validation(FaultField::Method));
                    }
                    TxOp::Transfer(fi, ti)
                },
            }
        } else {
            let k = find_method_idx(&self.methods, tx_method);
            if k >= n {
                return Err(LedgerError::Validation(FaultField::Method));
            }
            if is_income {
                TxOp::Income(k)
            } else {
                TxOp::Expense(k)
            }
        };
        proof {
            assert(Some(op) == lookup_op(ms, tx_method@, tx_type@));
        }

        // parse the amount
        let cents: i64 = match parse_amount(amount) {
            Some(v) => v,
            None => {
                return Err(LedgerError::Validation(FaultField::Amount));
            },
        };

        // map the date to its month index
        if y < self.epoch_year {
            return Err(LedgerError::OutOfRange);
        }
        let mi: usize = (y - self.epoch_year) as usize * 12 + mth as usize;
        if mi > self.months_total {
            return Err(LedgerError::OutOfRange);
        }
        proof {
            assert(mi == month_index_of(y as int, mth as int, self.epoch_year as int));
            assert(self.add_error_spec(date@, tx_method@, amount@, tx_type@) is None);
        }

        // the change row: one signed delta per method
        let mut deltas: Vec<i64> = Vec::new();
        let mut j: usize = 0;
        while j < n
            invariant
                0 <= j <= n,
                deltas@.len() == j,
                1 <= cents,
                forall|k: int| 0 <= k < j ==> deltas@[k] == op_delta(op, cents as int, k),
            decreases n - j,
        {
            let dj: i64 = match op {
                TxOp::Income(k) => if j == k {
                    cents
                } else {
                    0
                },
                TxOp::Expense(k) => if j == k {
                    -cents
                } else {
                    0
                },
                TxOp::Transfer(f, t) => if j == f {
                    -cents
                } else if j == t {
                    cents
                } else {
                    0
                },
            };
            deltas.push(dj);
            j += 1;
        }

        let rec = TxRecord {
            year: y,
            month: mth,
            day,
            details: details.to_owned(),
            op,
            amount: cents,
            month_idx: mi,
            deltas,
        };
        proof {
            assert(self.tx_wf(rec));
        }

        // forward cascade: every row from the transaction's month through
        // the terminal row takes the delta
        let ghost old_snap = self.snapshots@;
        let ghost old_txs = self.txs@;
        let start: usize = mi - 1;
        let rows = self.snapshots.len();
        let mut rr: usize = start;
        while rr < rows
            invariant
                start <= rr <= rows,
                self.config_frame(old(self)),
                self.txs@ == old_txs,
                old(self).wf(),
                old_txs == old(self).txs@,
                old_snap == old(self).snapshots@,
                n == self.methods@.len(),
                rows == self.snapshots@.len(),
                rows == old_snap.len(),
                start == rec.month_idx - 1,
                1 <= rec.month_idx <= self.months_total,
                rec.deltas@.len() == n,
                forall|k: int| 0 <= k < n ==> rec.deltas@[k] == rec_delta(rec, k),
                rec.amount >= 1,
                forall|r2: int| 0 <= r2 < start ==> self.snapshots@[r2] == old_snap[r2],
                forall|r2: int| rr <= r2 < rows ==> self.snapshots@[r2] == old_snap[r2],
                forall|r2: int|
                    0 <= r2 < rows ==> (#[trigger] self.snapshots@[r2])@.len() == n,
                forall|r2: int, k: int|
                    start <= r2 < rr && 0 <= k < n ==> #[trigger] self.snapshots@[r2]@[k] as int
                        == old_snap[r2]@[k] as int + rec.deltas@[k] as int,
            decreases rows - rr,
        {
            let mut k: usize = 0;
            while k < n
                invariant
                    0 <= k <= n,
                    start <= rr < rows,
                    self.config_frame(old(self)),
                    self.txs@ == old_txs,
                    old(self).wf(),
                    old_txs == old(self).txs@,
                    old_snap == old(self).snapshots@,
                    n == self.methods@.len(),
                    rows == self.snapshots@.len(),
                    rows == old_snap.len(),
                    start == rec.month_idx - 1,
                    1 <= rec.month_idx <= self.months_total,
                    rec.deltas@.len() == n,
                    forall|kk: int| 0 <= kk < n ==> rec.deltas@[kk] == rec_delta(rec, kk),
                    rec.amount >= 1,
                    forall|r2: int| 0 <= r2 < start ==> self.snapshots@[r2] == old_snap[r2],
                    forall|r2: int| rr < r2 < rows ==> self.snapshots@[r2] == old_snap[r2],
                    forall|r2: int|
                        0 <= r2 < rows ==> (#[trigger] self.snapshots@[r2])@.len() == n,
                    forall|r2: int, kk: int|
                        start <= r2 < rr && 0 <= kk < n ==> #[trigger] self.snapshots@[r2]@[kk]
                            as int == old_snap[r2]@[kk] as int + rec.deltas@[kk] as int,
                    forall|kk: int|
                        0 <= kk < k ==> #[trigger] self.snapshots@[rr as int]@[kk] as int
                            == old_snap[rr as int]@[kk] as int + rec.deltas@[kk] as int,
                    forall|kk: int|
                        k <= kk < n ==> #[trigger] self.snapshots@[rr as int]@[kk]
                            == old_snap[rr as int]@[kk],
                decreases n - k,
            {
                let cur: i128 = self.snapshots[rr][k];
                let dk: i64 = rec.deltas[k];
                proof {
                    let m = old(self).row_month(rr as int);
                    assert(cur as int == old_snap[rr as int]@[k as int] as int);
                    assert(old(self).snap_at(rr as int, k as int) == bal_upto(old_txs, m, k as int));
                    assert(forall|i2: int|
                        0 <= i2 < old_txs.len() ==> (#[trigger] old_txs[i2]) is Some
                            ==> old_txs[i2]->0.amount >= 0);
                    lemma_bal_bound(old_txs, m, k as int);
                    lemma_mul_inequality(
                        old_txs.len() as int,
                        u32::MAX as int - 1,
                        i64::MAX as int,
                    );
                }
                self.snapshots[rr][k] = cur + (dk as i128);
                k += 1;
            }
            rr += 1;
        }

        // append the transaction and hand out its id
        let id = self.next_id;
        self.txs.push(Some(rec));
        self.next_id = self.next_id + 1;

        proof {
            assert(forall|i: int|
                0 <= i < old_txs.len() ==> self.txs@[i] == old_txs[i]);
            let t = self.txs@[old_txs.len() as int]->0;
            assert(t == rec);
            assert forall|r2: int, jj: int|
                0 <= r2 < self.snapshots@.len() && 0 <= jj < self.methods@.len()
                    implies #[trigger] self.snap_at(r2, jj) == bal_upto(
                    self.txs@,
                    self.row_month(r2),
                    jj,
                ) by {
                lemma_bal_push(old_txs, Some(rec), self.row_month(r2), jj);
                assert(old(self).snap_at(r2, jj) == bal_upto(old_txs, self.row_month(r2), jj));
            }
            assert(self.wf());
        }
        Ok(id)
    }

    /// Removes the transaction with the given id and reverses its
    /// propagation: every snapshot row from its month through the terminal
    /// row gives the delta back, exactly. The id is never reused. Fails
    /// with `NotFound`, mutating nothing, when no live transaction
    /// carries the id — also on the second deletion of a once-deleted id.
    pub fn delete_tx(&mut self, id: u32) -> (r: Result<(), LedgerError>)
        requires
            old(self).wf(),
        ensures
            final(self).wf(),
            final(self).same_config(old(self)),
            final(self).next_id == old(self).next_id,
            r is Ok <==> old(self).live(id),
            match r {
                Ok(()) => {
                    &&& final(self).txs@ == old(self).txs@.update(
                        id - 1,
                        None::<TxRecord>,
                    )
                    &&& {
                        let t = old(self).txs@[id - 1]->0;
                        forall|rr: int, j: int|
                            0 <= rr < final(self).snapshots@.len()
                                && 0 <= j < final(self).methods@.len()
                                ==> #[trigger] final(self).snap_at(rr, j)
                                == old(self).snap_at(rr, j)
                                - (if final(self).row_month(rr) >= t.month_idx {
                                rec_delta(t, j)
                            } else {
                                0
                            })
                    }
                },
                Err(e) => {
                    &&& e == LedgerError::NotFound
                    &&& *final(self) == *old(self)
                },
            },
    {
        if id == 0 {
            return Err(LedgerError::NotFound);
        }
        let idx: usize = (id - 1) as usize;
        if idx >= self.txs.len() {
            return Err(LedgerError::NotFound);
        }
        let n = self.methods.len();

        // copy out the record's month index and change row, padded with
        // zeros for methods registered after it was stored
        let ghost trec = self.txs@[idx as int]->0;
        let (mi, dels): (usize, Vec<i64>) = match &self.txs[idx] {
            None => {
                return Err(LedgerError::NotFound);
            },
            Some(t) => {
                let nd = t.deltas.len();
                let mut ds: Vec<i64> = Vec::new();
                let mut k: usize = 0;
                while k < n
                    invariant
                        0 <= k <= n,
                        ds@.len() == k,
                        t == trec,
                        nd == t.deltas@.len(),
                        nd <= n,
                        op_in_range(t.op, nd as int),
                        forall|j: int| 0 <= j < nd ==> t.deltas@[j] == rec_delta(trec, j),
                        forall|j: int| 0 <= j < k ==> ds@[j] == rec_delta(trec, j),
                    decreases n - k,
                {
                    if k < nd {
                        ds.push(t.deltas[k]);
                    } else {
                        ds.push(0i64);
                        proof {
                            assert(rec_delta(trec, k as int) == 0);
                        }
                    }
                    k += 1;
                }
                (t.month_idx, ds)
            },
        };

        // reverse cascade: every row from the transaction's month through
        // the terminal row gives the delta back
        let ghost old_snap = self.snapshots@;
        let ghost old_txs = self.txs@;
        let start: usize = mi - 1;
        let rows = self.snapshots.len();
        let mut rr: usize = start;
        while rr < rows
            invariant
                start <= rr <= rows,
                self.config_frame(old(self)),
                self.txs@ == old_txs,
                old(self).wf(),
                old_txs == old(self).txs@,
                old_snap == old(self).snapshots@,
                n == self.methods@.len(),
                rows == self.snapshots@.len(),
                rows == old_snap.len(),
                0 <= idx < old_txs.len(),
                old_txs[idx as int] is Some,
                trec == old_txs[idx as int]->0,
                start == trec.month_idx - 1,
                1 <= trec.month_idx <= self.months_total,
                dels@.len() == n,
                forall|k: int| 0 <= k < n ==> dels@[k] == rec_delta(trec, k),
                trec.amount >= 1,
                forall|r2: int| 0 <= r2 < start ==> self.snapshots@[r2] == old_snap[r2],
                forall|r2: int| rr <= r2 < rows ==> self.snapshots@[r2] == old_snap[r2],
                forall|r2: int|
                    0 <= r2 < rows ==> (#[trigger] self.snapshots@[r2])@.len() == n,
                forall|r2: int, k: int|
                    start <= r2 < rr && 0 <= k < n ==> #[trigger] self.snapshots@[r2]@[k] as int
                        == old_snap[r2]@[k] as int - dels@[k] as int,
            decreases rows - rr,
        {
            let mut k: usize = 0;
            while k < n
                invariant
                    0 <= k <= n,
                    start <= rr < rows,
                    self.config_frame(old(self)),
                    self.txs@ == old_txs,
                    old(self).wf(),
                    old_txs == old(self).txs@,
                    old_snap == old(self).snapshots@,
                    n == self.methods@.len(),
                    rows == self.snapshots@.len(),
                    rows == old_snap.len(),
                    0 <= idx < old_txs.len(),
                    old_txs[idx as int] is Some,
                    trec == old_txs[idx as int]->0,
                    start == trec.month_idx - 1,
                    1 <= trec.month_idx <= self.months_total,
                    dels@.len() == n,
                    forall|kk: int| 0 <= kk < n ==> dels@[kk] == rec_delta(trec, kk),
                    trec.amount >= 1,
                    forall|r2: int| 0 <= r2 < start ==> self.snapshots@[r2] == old_snap[r2],
                    forall|r2: int| rr < r2 < rows ==> self.snapshots@[r2] == old_snap[r2],
                    forall|r2: int|
                        0 <= r2 < rows ==> (#[trigger] self.snapshots@[r2])@.len() == n,
                    forall|r2: int, kk: int|
                        start <= r2 < rr && 0 <= kk < n ==> #[trigger] self.snapshots@[r2]@[kk]
                            as int == old_snap[r2]@[kk] as int - dels@[kk] as int,
                    forall|kk: int|
                        0 <= kk < k ==> #[trigger] self.snapshots@[rr as int]@[kk] as int
                            == old_snap[rr as int]@[kk] as int - dels@[kk] as int,
                    forall|kk: int|
                        k <= kk < n ==> #[trigger] self.snapshots@[rr as int]@[kk]
                            == old_snap[rr as int]@[kk],
                decreases n - k,
            {
                let cur: i128 = self.snapshots[rr][k];
                let dk: i64 = dels[k];
                proof {
                    let m = old(self).row_month(rr as int);
                    assert(cur as int == old_snap[rr as int]@[k as int] as int);
                    assert(old(self).snap_at(rr as int, k as int) == bal_upto(old_txs, m, k as int));
                    assert(forall|i2: int|
                        0 <= i2 < old_txs.len() ==> (#[trigger] old_txs[i2]) is Some
                            ==> old_txs[i2]->0.amount >= 0);
                    lemma_bal_bound(old_txs, m, k as int);
                    lemma_mul_inequality(
                        old_txs.len() as int,
                        u32::MAX as int - 1,
                        i64::MAX as int,
                    );
                    assert(-(i64::MAX as int) <= rec_delta(trec, k as int) <= i64::MAX as int);
                }
                self.snapshots[rr][k] = cur - (dk as i128);
                k += 1;
            }
            rr += 1;
        }

        // remove the transaction; its id stays burned
        self.txs[idx] = None;

        proof {
            assert(self.txs@ =~= old_txs.update(idx as int, None::<TxRecord>));
            assert forall|r2: int, jj: int|
                0 <= r2 < self.snapshots@.len() && 0 <= jj < self.methods@.len()
                    implies #[trigger] self.snap_at(r2, jj) == bal_upto(
                    self.txs@,
                    self.row_month(r2),
                    jj,
                ) by {
                lemma_bal_update(old_txs, idx as int, None::<TxRecord>, self.row_month(r2), jj);
                assert(old(self).snap_at(r2, jj) == bal_upto(old_txs, self.row_month(r2), jj));
                if jj >= dels@.len() {
                } else {
                }
            }
            assert(self.wf());
        }
        Ok(())
    }

    /// Appends a new method to the registry and extends every snapshot
    /// row with a zero cell for it. Fails with a method validation error,
    /// mutating nothing, when the name is already registered.
    pub fn register_method(&mut self, name: String) -> (r: Result<(), LedgerError>)
        requires
            old(self).wf(),
        ensures
            final(self).wf(),
            r is Ok <==> !old(self).has_method(name@),
            match r {
                Ok(()) => {
                    &&& final(self).methods@ == old(self).methods@.push(name)
                    &&& final(self).txs@ == old(self).txs@
                    &&& final(self).next_id == old(self).next_id
                    &&& final(self).epoch_year == old(self).epoch_year
                    &&& final(self).year_span == old(self).year_span
                    &&& final(self).months_total == old(self).months_total
                    &&& final(self).snapshots@.len() == old(self).snapshots@.len()
                    &&& forall|r2: int, j: int|
                        0 <= r2 < old(self).snapshots@.len() && 0 <= j < old(self).methods@.len()
                            ==> #[trigger] final(self).snap_at(r2, j) == old(self).snap_at(r2, j)
                    &&& forall|r2: int|
                        0 <= r2 < old(self).snapshots@.len() ==> #[trigger] final(self).snap_at(
                            r2,
                            old(self).methods@.len() as int,
                        ) == 0
                },
                Err(e) => {
                    &&& e == LedgerError::Validation(FaultField::Method)
                    &&& *final(self) == *old(self)
                },
            },
    {
        let n = self.methods.len();
        let k = find_method_idx(&self.methods, name.as_str());
        if k < n {
            proof {
                assert(self.has_method(name@));
            }
            return Err(LedgerError::Validation(FaultField::Method));
        }
        proof {
            lemma_find_from_props(self.method_names(), name@, 0);
            assert(!self.has_method(name@));
        }

        let ghost old_snap = self.snapshots@;
        let rows = self.snapshots.len();
        let mut rr: usize = 0;
        while rr < rows
            invariant
                0 <= rr <= rows,
                self.config_frame(old(self)),
                self.txs@ == old(self).txs@,
                old(self).wf(),
                old_snap == old(self).snapshots@,
                n == self.methods@.len(),
                rows == self.snapshots@.len(),
                rows == old_snap.len(),
                forall|r2: int| rr <= r2 < rows ==> self.snapshots@[r2] == old_snap[r2],
                forall|r2: int|
                    0 <= r2 < rr ==> (#[trigger] self.snapshots@[r2])@ == old_snap[r2]@.push(
                        0i128,
                    ),
            decreases rows - rr,
        {
            self.snapshots[rr].push(0i128);
            rr += 1;
        }

        self.methods.push(name);

        proof {
            let oms = old(self).method_names();
            let nms = self.method_names();
            assert(nms =~= oms.push(name@));
            assert(forall|kk: int| 0 <= kk < oms.len() ==> oms[kk] != name@);
            assert(distinct_names(nms));
            assert forall|r2: int, jj: int|
                0 <= r2 < self.snapshots@.len() && 0 <= jj < self.methods@.len()
                    implies #[trigger] self.snap_at(r2, jj) == bal_upto(
                    self.txs@,
                    self.row_month(r2),
                    jj,
                ) by {
                if jj == n {
                    assert(forall|i2: int|
                        0 <= i2 < self.txs@.len() ==> (#[trigger] self.txs@[i2]) is Some
                            ==> op_in_range(self.txs@[i2]->0.op, n as int));
                    lemma_bal_unreferenced(self.txs@, n as int, self.row_month(r2), jj);
                    assert(self.snapshots@[r2]@[jj] == 0i128);
                } else {
                    assert(old(self).snap_at(r2, jj) == bal_upto(
                        self.txs@,
                        self.row_month(r2),
                        jj,
                    ));
                    assert(self.snapshots@[r2]@[jj] == old_snap[r2]@[jj]);
                }
            }
            assert(self.wf());
        }
        Ok(())
    }

    /// Whether a method of this name is registered.
    pub open spec fn has_method(&self, name: Seq<char>) -> bool {
        exists|k: int|
            0 <= k < self.method_names().len() && self.method_names()[k] == name
    }

    /// The ordered method names, as owned strings.
    pub fn get_all_tx_methods(&self) -> (r: Vec<String>)
        ensures
            r.deep_view() == self.method_names(),
            r@.len() == self.methods@.len(),
    {
        let n = self.methods.len();
        let mut out: Vec<String> = Vec::new();
        let mut i: usize = 0;
        while i < n
            invariant
                0 <= i <= n,
                n == self.methods@.len(),
                out@.len() == i,
                forall|k: int| 0 <= k < i ==> out@[k]@ == self.methods@[k]@,
            decreases n - i,
        {
            out.push(self.methods[i].clone());
            i += 1;
        }
        proof {
            assert(out.deep_view() =~= self.method_names());
        }
        out
    }

    /// Balance of every method as of the end of the given month index,
    /// read straight from the snapshot row.
    pub fn balance_as_of(&self, month_index: usize) -> (r: Vec<i128>)
        requires
            self.wf(),
            1 <= month_index <= self.months_total,
        ensures
            r@.len() == self.methods@.len(),
            forall|j: int|
                0 <= j < r@.len() ==> r@[j] as int == bal_upto(
                    self.txs@,
                    month_index as int,
                    j,
                ),
    {
        let n = self.methods.len();
        let mut out: Vec<i128> = Vec::new();
        let mut j: usize = 0;
        while j < n
            invariant
                0 <= j <= n,
                self.wf(),
                1 <= month_index <= self.months_total,
                n == self.methods@.len(),
                out@.len() == j,
                forall|k: int|
                    0 <= k < j ==> out@[k] as int == bal_upto(self.txs@, month_index as int, k),
            decreases n - j,
        {
            let cell = self.snapshots[month_index - 1][j];
            proof {
                assert(self.row_month(month_index - 1) == month_index);
                assert(self.snap_at(month_index - 1, j as int) == bal_upto(
                    self.txs@,
                    month_index as int,
                    j as int,
                ));
            }
            out.push(cell);
            j += 1;
        }
        out
    }

    /// Balance of every method across all time: the terminal snapshot row.
    pub fn all_time_balance(&self) -> (r: Vec<i128>)
        requires
            self.wf(),
        ensures
            r@.len() == self.methods@.len(),
            forall|j: int|
                0 <= j < r@.len() ==> r@[j] as int == bal_upto(
                    self.txs@,
                    self.months_total as int,
                    j,
                ),
    {
        let n = self.methods.len();
        let mut out: Vec<i128> = Vec::new();
        let mut j: usize = 0;
        while j < n
            invariant
                0 <= j <= n,
                self.wf(),
                n == self.methods@.len(),
                out@.len() == j,
                forall|k: int|
                    0 <= k < j ==> out@[k] as int == bal_upto(
                        self.txs@,
                        self.months_total as int,
                        k,
                    ),
            decreases n - j,
        {
            let cell = self.snapshots[self.months_total][j];
            proof {
                assert(self.row_month(self.months_total as int) == self.months_total);
                assert(self.snap_at(self.months_total as int, j as int) == bal_upto(
                    self.txs@,
                    self.months_total as int,
                    j as int,
                ));
            }
            out.push(cell);
            j += 1;
        }
        out
    }

    /// The all-time balances rendered as text, trailing fraction zeros
    /// trimmed.
    pub fn get_last_balances(&self) -> (r: Vec<String>)
        requires
            self.wf(),
        ensures
            r@.len() == self.methods@.len(),
            forall|j: int|
                0 <= j < r@.len() ==> r@[j]@ == balance_text_short(
                    bal_upto(self.txs@, self.months_total as int, j),
                ),
    {
        let n = self.methods.len();
        let mut out: Vec<String> = Vec::new();
        let mut j: usize = 0;
        while j < n
            invariant
                0 <= j <= n,
                self.wf(),
                n == self.methods@.len(),
                out@.len() == j,
                forall|k: int|
                    0 <= k < j ==> out@[k]@ == balance_text_short(
                        bal_upto(self.txs@, self.months_total as int, k),
                    ),
            decreases n - j,
        {
            let cell = self.snapshots[self.months_total][j];
            proof {
                assert(self.row_month(self.months_total as int) == self.months_total);
                assert(self.snap_at(self.months_total as int, j as int) == bal_upto(
                    self.txs@,
                    self.months_total as int,
                    j as int,
                ));
                assert(forall|i2: int|
                    0 <= i2 < self.txs@.len() ==> (#[trigger] self.txs@[i2]) is Some
                        ==> self.txs@[i2]->0.amount >= 0);
                lemma_bal_bound(self.txs@, self.months_total as int, j as int);
                lemma_mul_inequality(
                    self.txs@.len() as int,
                    u32::MAX as int - 1,
                    i64::MAX as int,
                );
            }
            out.push(format_cents_short(cell));
            j += 1;
        }
        out
    }

    /// Balance of every method as of the end of the given month of the
    /// given configured year (zero-based year index).
    pub fn get_last_time_balance(&self, month: usize, year_index: usize) -> (r: Vec<i128>)
        requires
            self.wf(),
            1 <= month <= 12,
            month + 12 * year_index <= self.months_total,
        ensures
            r@.len() == self.methods@.len(),
            forall|j: int|
                0 <= j < r@.len() ==> r@[j] as int == bal_upto(
                    self.txs@,
                    month + 12 * year_index,
                    j,
                ),
    {
        let mi: usize = month + 12 * year_index;
        self.balance_as_of(mi)
    }

    /// Row position of the terminal all-time snapshot row, one past the
    /// last configured month.
    pub fn get_last_balance_id(&self) -> (r: usize)
        requires
            self.wf(),
        ensures
            r == self.months_total + 1,
    {
        self.months_total + 1
    }

    /// The stored transaction with the given id. Fails with `NotFound`
    /// when the id is not live.
    pub fn get_tx(&self, id: u32) -> (r: Result<&TxRecord, LedgerError>)
        ensures
            r is Ok <==> self.live(id),
            r matches Ok(t) ==> *t == self.txs@[id - 1]->0,
            r matches Err(e) ==> e == LedgerError::NotFound,
    {
        if id == 0 {
            return Err(LedgerError::NotFound);
        }
        let idx: usize = (id - 1) as usize;
        if idx >= self.txs.len() {
            return Err(LedgerError::NotFound);
        }
        match &self.txs[idx] {
            Some(t) => Ok(t),
            None => Err(LedgerError::NotFound),
        }
    }

    /// The change row of the given id: the signed delta it applied to each
    /// method, zero for methods registered after it was stored. An absent
    /// id yields the all-zero row — no transaction selected, no error.
    pub fn changes_for(&self, id: u32) -> (r: Vec<i64>)
        requires
            self.wf(),
        ensures
            r@.len() == self.methods@.len(),
            self.live(id) ==> forall|j: int|
                0 <= j < r@.len() ==> r@[j] == rec_delta(self.txs@[id - 1]->0, j),
            !self.live(id) ==> forall|j: int| 0 <= j < r@.len() ==> r@[j] == 0,
    {
        let n = self.methods.len();
        let mut out: Vec<i64> = Vec::new();
        if id >= 1 && ((id - 1) as usize) < self.txs.len() {
            let idx: usize = (id - 1) as usize;
            match &self.txs[idx] {
                Some(t) => {
                    let nd = t.deltas.len();
                    let mut k: usize = 0;
                    while k < n
                        invariant
                            0 <= k <= n,
                            out@.len() == k,
                            t == self.txs@[idx as int]->0,
                            nd == t.deltas@.len(),
                            nd <= n,
                            op_in_range(t.op, nd as int),
                            forall|j: int| 0 <= j < nd ==> t.deltas@[j] == rec_delta(*t, j),
                            forall|j: int| 0 <= j < k ==> out@[j] == rec_delta(*t, j),
                        decreases n - k,
                    {
                        if k < nd {
                            out.push(t.deltas[k]);
                        } else {
                            out.push(0i64);
                            proof {
                                assert(rec_delta(*t, k as int) == 0);
                            }
                        }
                        k += 1;
                    }
                    return out;
                },
                None => {},
            }
        }
        let mut k: usize = 0;
        while k < n
            invariant
                0 <= k <= n,
                out@.len() == k,
                forall|j: int| 0 <= j < k ==> out@[j] == 0i64,
            decreases n - k,
        {
            out.push(0i64);
            k += 1;
        }
        out
    }
}

} // verus!
