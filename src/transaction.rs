//! What the coordinators promise: the errors of the lines of a sale or a
//! return, what committing either does to the ledger, and what the stock
//! query reports.
use vstd::prelude::*;
use crate::model::{
    Batch, HistoryEntry, LedgerError, LedgerView, Reason, Return, ReturnItem, ReturnLine, Sale,
    SaleItem, SaleLine, returned,
};
use crate::plan::{
    Allocation, StockSlot, available_total, available_upto, drawn_down, is_fefo_plan,
};

verus! {

/// Units that the sale items draw from batch `b`.
pub open spec fn drawn(items: Seq<SaleItem>, b: int) -> int
    decreases items.len(),
{
    if items.len() == 0 {
        0
    } else {
        drawn(items.drop_last(), b) + if items.last().batch_id == b {
            items.last().quantity as int
        } else {
            0
        }
    }
}

/// The sum of the extended prices of sale items.
pub open spec fn items_amount(items: Seq<SaleItem>) -> int
    decreases items.len(),
{
    if items.len() == 0 {
        0
    } else {
        items_amount(items.drop_last()) + items.last().quantity * items.last().price_at_sale
    }
}

/// Units of product `p` that the first `k` lines ask for.
pub open spec fn demand_in(lines: Seq<SaleLine>, k: int, p: usize) -> int
    decreases k,
{
    if k <= 0 {
        0
    } else {
        demand_in(lines, k - 1, p) + if lines[k - 1].product_id == p {
            lines[k - 1].quantity as int
        } else {
            0
        }
    }
}

impl LedgerView {
    /// The selling price of product `p`, or nothing for an unknown one.
    pub open spec fn price_of(self, p: usize) -> int {
        if p < self.products.len() {
            self.products[p as int].selling_price as int
        } else {
            0
        }
    }

    /// The extended price of the first `k` lines.
    pub open spec fn sale_amount(self, lines: Seq<SaleLine>, k: int) -> int
        decreases k,
    {
        if k <= 0 {
            0
        } else {
            self.sale_amount(lines, k - 1) + lines[k - 1].quantity * self.price_of(
                lines[k - 1].product_id,
            )
        }
    }

    /// Why line `k` of a sale cannot be served, given the lines before it.
    pub open spec fn line_error(self, lines: Seq<SaleLine>, k: int) -> Option<LedgerError> {
        let line = lines[k];
        let wanted = demand_in(lines, k + 1, line.product_id);
        let stock = available_total(self.stock(), line.product_id);
        if line.quantity <= 0 {
            Some(LedgerError::InvalidLineItem)
        } else if line.product_id >= self.products.len() {
            Some(LedgerError::UnknownProduct)
        } else if wanted > stock {
            Some(
                LedgerError::InsufficientStock {
                    product_id: line.product_id,
                    shortfall: (wanted - stock) as i64,
                },
            )
        } else if self.sale_amount(lines, k + 1) > i64::MAX {
            Some(LedgerError::Overflow)
        } else {
            None
        }
    }

    /// The error of the first of the first `n` lines that cannot be served.
    pub open spec fn first_line_error(self, lines: Seq<SaleLine>, n: int) -> Option<LedgerError>
        decreases n,
    {
        if n <= 0 {
            None
        } else if self.first_line_error(lines, n - 1) is Some {
            self.first_line_error(lines, n - 1)
        } else {
            self.line_error(lines, n - 1)
        }
    }
}

pub(crate) proof fn lemma_first_error_stable(v: LedgerView, lines: Seq<SaleLine>, m: int, n: int)
    requires
        0 <= m <= n,
    ensures
        v.first_line_error(lines, m) is Some ==> v.first_line_error(lines, n)
            == v.first_line_error(lines, m),
    decreases n - m,
{
    if m < n {
        lemma_first_error_stable(v, lines, m, n - 1);
    }
}

pub(crate) proof fn lemma_drawn_push(items: Seq<SaleItem>, e: SaleItem, b: int)
    ensures
        drawn(items.push(e), b) == drawn(items, b) + if e.batch_id == b {
            e.quantity as int
        } else {
            0
        },
        items_amount(items.push(e)) == items_amount(items) + e.quantity * e.price_at_sale,
{
    assert(items.push(e).drop_last() =~= items);
}

pub(crate) proof fn lemma_drawn_prefix(items: Seq<SaleItem>, j: int, b: int)
    requires
        0 <= j <= items.len(),
        forall|k: int| 0 <= k < items.len() ==> #[trigger] items[k].quantity > 0,
    ensures
        0 <= drawn(items.take(j), b) <= drawn(items, b),
    decreases items.len(),
{
    if j == items.len() {
        assert(items.take(j) =~= items);
        if items.len() > 0 {
            lemma_drawn_prefix(items.drop_last(), 0, b);
            assert(items.drop_last().take(0) =~= items.take(0));
            assert(items.drop_last().take(0).len() == 0);
        }
    } else {
        let d = items.drop_last();
        assert(d.take(j) =~= items.take(j));
        assert forall|k: int| 0 <= k < d.len() implies #[trigger] d[k].quantity > 0 by {
            assert(d[k] == items[k]);
        }
        lemma_drawn_prefix(d, j, b);
    }
}

/// The allocation that a sale item stands for.
pub open spec fn as_allocation(it: SaleItem) -> Allocation {
    Allocation { batch_id: it.batch_id, quantity: it.quantity }
}

/// The allocations of `items[from..to]`.
pub open spec fn run_of(items: Seq<SaleItem>, from: int, to: int) -> Seq<Allocation> {
    items.subrange(from, to).map_values(|it: SaleItem| as_allocation(it))
}

/// What the planner sees of `v` once `items` have been drawn from it.
pub open spec fn stock_after(v: LedgerView, items: Seq<SaleItem>) -> Seq<StockSlot> {
    Seq::new(v.batches.len(), |i: int| drawn_down(v.stock()[i], drawn(items, i)))
}

/// The run of items of line `k` is the FEFO plan of that line over the
/// stock that the runs before it leave.
pub open spec fn line_planned(
    v: LedgerView,
    lines: Seq<SaleLine>,
    items: Seq<SaleItem>,
    starts: Seq<int>,
    k: int,
) -> bool {
    &&& 0 <= starts[k] <= starts[k + 1] <= items.len()
    &&& is_fefo_plan(
        stock_after(v, items.take(starts[k])),
        lines[k].product_id,
        lines[k].quantity as int,
        run_of(items, starts[k], starts[k + 1]),
    )
}

/// `starts` cuts `items` into one run per line, each planned FEFO.
pub open spec fn lines_planned(
    v: LedgerView,
    lines: Seq<SaleLine>,
    items: Seq<SaleItem>,
    starts: Seq<int>,
) -> bool {
    &&& starts.len() == lines.len() + 1
    &&& starts[0] == 0
    &&& starts[lines.len() as int] == items.len()
    &&& forall|k: int| 0 <= k < lines.len() ==> #[trigger] line_planned(v, lines, items, starts, k)
}

/// The items of a sale are, line by line, the FEFO plans of its lines, each
/// over the stock that the lines before it leave.
pub open spec fn sale_follows_fefo(v: LedgerView, lines: Seq<SaleLine>, items: Seq<SaleItem>) -> bool {
    exists|starts: Seq<int>| #[trigger] lines_planned(v, lines, items, starts)
}

/// The batch with its quantity set to `q`.
pub open spec fn with_q(b: Batch, q: int) -> Batch {
    Batch { quantity: q as i64, ..b }
}

/// `new` is `old` after a sale of `total` cents paid with `cash` was
/// committed: one new sale, its items after the old ones, each batch
/// reduced by what the items draw from it, one sale entry in the history
/// per item, and nothing else changed.
pub open spec fn sale_committed(old: LedgerView, new: LedgerView, total: int, cash: int) -> bool {
    let base = old.sale_items.len();
    let items = new.sale_items.subrange(base as int, new.sale_items.len() as int);
    let hbase = old.history.len();
    &&& new.products == old.products
    &&& new.returns == old.returns
    &&& new.return_items == old.return_items
    &&& new.sales == old.sales.push(
        Sale {
            id: old.sales.len() as usize,
            total: total as i64,
            cash_received: cash as i64,
            change: (cash - total) as i64,
        },
    )
    &&& new.sale_items.len() >= base
    &&& new.sale_items.subrange(0, base as int) == old.sale_items
    &&& forall|k: int|
        0 <= k < items.len() ==> {
            let it = #[trigger] items[k];
            &&& it.id == base + k
            &&& it.sale_id == old.sales.len()
            &&& it.batch_id < old.batches.len()
            &&& it.price_at_sale == old.price_of(old.batches[it.batch_id as int].product_id)
        }
    &&& items_amount(items) == total
    &&& new.batches.len() == old.batches.len()
    &&& forall|b: int|
        0 <= b < old.batches.len() ==> #[trigger] new.batches[b] == with_q(
            old.batches[b],
            old.batches[b].quantity - drawn(items, b),
        )
    &&& new.history.len() == hbase + items.len()
    &&& new.history.subrange(0, hbase as int) == old.history
    &&& forall|k: int|
        0 <= k < items.len() ==> #[trigger] new.history[hbase + k] == (HistoryEntry {
            batch_id: items[k].batch_id,
            change: -items[k].quantity as i64,
            reason: Reason::Sale,
        })
}

/// The sale item with id `id`.
pub open spec fn with_id(d: SaleItem, id: int) -> SaleItem {
    SaleItem { id: id as usize, ..d }
}

/// The history entry of a sale item's depletion.
pub open spec fn sale_entry(d: SaleItem) -> HistoryEntry {
    HistoryEntry { batch_id: d.batch_id, change: -d.quantity as i64, reason: Reason::Sale }
}

pub(crate) proof fn lemma_same_draws(x: Seq<SaleItem>, y: Seq<SaleItem>)
    requires
        x.len() == y.len(),
        forall|k: int|
            0 <= k < x.len() ==> (#[trigger] x[k]).batch_id == y[k].batch_id && x[k].quantity
                == y[k].quantity && x[k].price_at_sale == y[k].price_at_sale,
    ensures
        forall|b: int| #[trigger] drawn(x, b) == drawn(y, b),
        items_amount(x) == items_amount(y),
    decreases x.len(),
{
    if x.len() > 0 {
        let (dx, dy) = (x.drop_last(), y.drop_last());
        assert forall|k: int| 0 <= k < dx.len() implies (#[trigger] dx[k]).batch_id
            == dy[k].batch_id && dx[k].quantity == dy[k].quantity && dx[k].price_at_sale
            == dy[k].price_at_sale by {
            assert(dx[k] == x[k] && dy[k] == y[k]);
        }
        lemma_same_draws(dx, dy);
        assert forall|b: int| #[trigger] drawn(x, b) == drawn(y, b) by {
            assert(drawn(dx, b) == drawn(dy, b));
        }
    }
}

/// Units of sale item `si` that the first `k` lines of a return take back.
pub open spec fn returned_in(items: Seq<ReturnLine>, k: int, si: int) -> int
    decreases k,
{
    if k <= 0 {
        0
    } else {
        returned_in(items, k - 1, si) + if items[k - 1].sale_item_id == si {
            items[k - 1].quantity as int
        } else {
            0
        }
    }
}

impl LedgerView {
    /// The batch that return line `it` puts stock back into.
    pub open spec fn batch_of(self, it: ReturnLine) -> int {
        self.sale_items[it.sale_item_id as int].batch_id as int
    }

    /// Units that the first `k` lines of a return put back into batch `b`.
    pub open spec fn restored_in(self, items: Seq<ReturnLine>, k: int, b: int) -> int
        decreases k,
    {
        if k <= 0 {
            0
        } else {
            self.restored_in(items, k - 1, b) + if items[k - 1].sale_item_id
                < self.sale_items.len() && self.batch_of(items[k - 1]) == b {
                items[k - 1].quantity as int
            } else {
                0
            }
        }
    }

    /// Why line `k` of a return against sale `sale_id` cannot be taken,
    /// given the lines before it.
    pub open spec fn return_line_error(self, sale_id: usize, items: Seq<ReturnLine>, k: int) -> Option<
        LedgerError,
    > {
        let it = items[k];
        let si = it.sale_item_id as int;
        if si >= self.sale_items.len() || self.sale_items[si].sale_id != sale_id {
            Some(LedgerError::UnknownSaleItem)
        } else if it.quantity <= 0 {
            Some(LedgerError::InvalidQuantity)
        } else if returned(self.return_items, si) + returned_in(items, k + 1, si)
            > self.sale_items[si].quantity {
            Some(LedgerError::OverReturn)
        } else if !self.is_live(self.batch_of(it)) {
            Some(LedgerError::UnknownBatch)
        } else if self.batches[self.batch_of(it)].quantity + self.restored_in(
            items,
            k + 1,
            self.batch_of(it),
        ) > i64::MAX {
            Some(LedgerError::Overflow)
        } else {
            None
        }
    }

    /// The error of the first of the first `n` return lines that cannot be
    /// taken.
    pub open spec fn first_return_error(self, sale_id: usize, items: Seq<ReturnLine>, n: int) -> Option<
        LedgerError,
    >
        decreases n,
    {
        if n <= 0 {
            None
        } else if self.first_return_error(sale_id, items, n - 1) is Some {
            self.first_return_error(sale_id, items, n - 1)
        } else {
            self.return_line_error(sale_id, items, n - 1)
        }
    }
}

/// `new` is `old` after a return of `items` was committed: the new return
/// row `row`, one return item per line, each batch raised by
/// what the lines put back into it, one return entry in the history per
/// line, and nothing else changed.
pub open spec fn return_committed(
    old: LedgerView,
    new: LedgerView,
    items: Seq<ReturnLine>,
    row: Return,
) -> bool {
    let base = old.return_items.len();
    let hbase = old.history.len();
    &&& new.products == old.products
    &&& new.sales == old.sales
    &&& new.sale_items == old.sale_items
    &&& new.returns == old.returns.push(row)
    &&& new.return_items.len() == base + items.len()
    &&& new.return_items.subrange(0, base as int) == old.return_items
    &&& forall|k: int|
        0 <= k < items.len() ==> #[trigger] new.return_items[base + k] == (ReturnItem {
            id: (base + k) as usize,
            return_id: old.returns.len() as usize,
            sale_item_id: items[k].sale_item_id,
            quantity: items[k].quantity,
        })
    &&& new.batches.len() == old.batches.len()
    &&& forall|b: int|
        0 <= b < old.batches.len() ==> #[trigger] new.batches[b] == with_q(
            old.batches[b],
            old.batches[b].quantity + old.restored_in(items, items.len() as int, b),
        )
    &&& new.history.len() == hbase + items.len()
    &&& new.history.subrange(0, hbase as int) == old.history
    &&& forall|k: int|
        0 <= k < items.len() ==> #[trigger] new.history[hbase + k] == (HistoryEntry {
            batch_id: old.batch_of(items[k]) as usize,
            change: items[k].quantity,
            reason: Reason::Return,
        })
}

pub(crate) proof fn lemma_first_return_error_stable(
    v: LedgerView,
    sale_id: usize,
    items: Seq<ReturnLine>,
    m: int,
    n: int,
)
    requires
        0 <= m <= n,
    ensures
        v.first_return_error(sale_id, items, m) is Some ==> v.first_return_error(sale_id, items, n)
            == v.first_return_error(sale_id, items, m),
    decreases n - m,
{
    if m < n {
        lemma_first_return_error_stable(v, sale_id, items, m, n - 1);
    }
}

pub(crate) proof fn lemma_returned_prefix(r: Seq<ReturnItem>, j: int, si: int)
    requires
        0 <= j <= r.len(),
        forall|k: int| 0 <= k < r.len() ==> #[trigger] r[k].quantity > 0,
    ensures
        0 <= returned(r.take(j), si) <= returned(r, si),
    decreases r.len(),
{
    if j == r.len() {
        assert(r.take(j) =~= r);
        if r.len() > 0 {
            let d = r.drop_last();
            assert forall|k: int| 0 <= k < d.len() implies #[trigger] d[k].quantity > 0 by {
                assert(d[k] == r[k]);
            }
            lemma_returned_prefix(d, d.len() as int, si);
            assert(d.take(d.len() as int) =~= d);
        }
    } else {
        let d = r.drop_last();
        assert(d.take(j) =~= r.take(j));
        assert forall|k: int| 0 <= k < d.len() implies #[trigger] d[k].quantity > 0 by {
            assert(d[k] == r[k]);
        }
        lemma_returned_prefix(d, j, si);
    }
}

pub(crate) proof fn lemma_no_return_error(v: LedgerView, sale_id: usize, items: Seq<ReturnLine>, n: int)
    requires
        v.first_return_error(sale_id, items, n) is None,
    ensures
        forall|k: int| 0 <= k < n ==> #[trigger] v.return_line_error(sale_id, items, k) is None,
    decreases n,
{
    if n > 0 {
        lemma_no_return_error(v, sale_id, items, n - 1);
    }
}

/// The return item that records line `it`.
pub open spec fn return_item_of(it: ReturnLine, id: int, return_id: usize) -> ReturnItem {
    ReturnItem { id: id as usize, return_id, sale_item_id: it.sale_item_id, quantity: it.quantity }
}

/// The history entry of a return line's restoration.
pub open spec fn return_entry(v: LedgerView, it: ReturnLine) -> HistoryEntry {
    HistoryEntry { batch_id: v.batch_of(it) as usize, change: it.quantity, reason: Reason::Return }
}

impl LedgerView {
    /// The products among the first `n` whose live stock is at most
    /// `threshold`, in id order, each with that stock.
    pub open spec fn low_stock(self, threshold: i64, n: int) -> Seq<(usize, i64)>
        decreases n,
    {
        if n <= 0 {
            Seq::empty()
        } else {
            let total = available_total(self.stock(), (n - 1) as usize);
            let rest = self.low_stock(threshold, n - 1);
            if total <= threshold {
                rest.push(((n - 1) as usize, total as i64))
            } else {
                rest
            }
        }
    }
}

pub(crate) proof fn lemma_available_upto_grows(s: Seq<StockSlot>, p: usize, i: int, n: int)
    requires
        0 <= i <= n,
    ensures
        0 <= available_upto(s, p, i) <= available_upto(s, p, n),
    decreases n,
{
    if i < n {
        lemma_available_upto_grows(s, p, i, n - 1);
    } else if n > 0 {
        lemma_available_upto_grows(s, p, n - 1, n - 1);
    }
}

} // verus!
