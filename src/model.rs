//! The ledger's data, its model as plain sequences, the invariant that
//! every operation keeps, and the laws that follow from it.
use vstd::prelude::*;
use crate::plan::{
    StockSlot,
};

verus! {

/// A catalog entry as the ledger needs it: the selling price in cents.
#[derive(Clone, Copy, Debug, PartialEq, Eq)]
pub struct Product {
    pub id: usize,
    pub selling_price: i64,
}

/// Where a batch stands: eligible for sale, or retired for good at the
/// time the caller gave (seconds since the epoch).
#[derive(Clone, Copy, Debug, PartialEq, Eq)]
pub enum Lifecycle {
    Active,
    Deleted { at: u64 },
}

/// One receipt lot of a product. Prices are in cents.
#[derive(Clone, Debug, PartialEq, Eq)]
pub struct Batch {
    pub id: usize,
    pub product_id: usize,
    pub batch_number: Option<String>,
    pub cost_price: i64,
    pub quantity: i64,
    /// The quantity received when the batch was created.
    pub received: i64,
    /// Expiration as a day key whose numeric order is calendar order.
    pub expiration: Option<u32>,
    pub lifecycle: Lifecycle,
}

/// Why a batch quantity changed.
#[derive(Clone, Copy, Debug, PartialEq, Eq)]
pub enum Reason {
    Sale,
    Return,
    Adjustment,
    Receipt,
    Correction,
}

/// One append-only audit row: a signed change of a batch quantity.
#[derive(Clone, Copy, Debug, PartialEq, Eq)]
pub struct HistoryEntry {
    pub batch_id: usize,
    pub change: i64,
    pub reason: Reason,
}

/// A committed sale; amounts in cents.
#[derive(Clone, Copy, Debug, PartialEq, Eq)]
pub struct Sale {
    pub id: usize,
    pub total: i64,
    pub cash_received: i64,
    pub change: i64,
}

/// One draw of a sale from one batch.
#[derive(Clone, Copy, Debug, PartialEq, Eq)]
pub struct SaleItem {
    pub id: usize,
    pub sale_id: usize,
    pub batch_id: usize,
    pub quantity: i64,
    pub price_at_sale: i64,
}

/// How a return is settled.
#[derive(Clone, Copy, Debug, PartialEq, Eq)]
pub enum ReturnType {
    Refund,
    Exchange,
    StoreCredit,
}

/// A committed return against a sale, with the refund the caller decided
/// on and the reason given.
#[derive(Clone, Debug, PartialEq, Eq)]
pub struct Return {
    pub id: usize,
    pub sale_id: usize,
    pub refund_amount: i64,
    pub return_type: ReturnType,
    pub reason: String,
}

/// The quantity of one sale item that a return takes back.
#[derive(Clone, Copy, Debug, PartialEq, Eq)]
pub struct ReturnItem {
    pub id: usize,
    pub return_id: usize,
    pub sale_item_id: usize,
    pub quantity: i64,
}

/// One requested line of a sale.
#[derive(Clone, Copy, Debug, PartialEq, Eq)]
pub struct SaleLine {
    pub product_id: usize,
    pub quantity: i64,
}

/// One requested line of a return.
#[derive(Clone, Copy, Debug, PartialEq, Eq)]
pub struct ReturnLine {
    pub sale_item_id: usize,
    pub quantity: i64,
}

/// Why an operation was refused; a refused operation changes nothing.
#[derive(Clone, Copy, Debug, PartialEq, Eq)]
pub enum LedgerError {
    InvalidQuantity,
    InvalidCostPrice,
    InvalidPrice,
    InvalidReason,
    UnknownProduct,
    UnknownBatch,
    InsufficientStock { product_id: usize, shortfall: i64 },
    NonZeroQuantity,
    InvalidLineItem,
    InsufficientCash,
    UnknownSale,
    UnknownSaleItem,
    OverReturn,
    Overflow,
}

/// The ledger as plain sequences; ids are indices.
pub struct LedgerView {
    pub products: Seq<Product>,
    pub batches: Seq<Batch>,
    pub history: Seq<HistoryEntry>,
    pub sales: Seq<Sale>,
    pub sale_items: Seq<SaleItem>,
    pub returns: Seq<Return>,
    pub return_items: Seq<ReturnItem>,
}

/// What an entry contributes to the reconciliation of batch `b`: nothing for
/// the receipt, the magnitude taken away for a sale, the signed change
/// otherwise.
pub open spec fn movement(e: HistoryEntry, b: int) -> int {
    if e.batch_id != b || e.reason == Reason::Receipt {
        0
    } else if e.reason == Reason::Sale {
        if e.change < 0 {
            e.change as int
        } else {
            -e.change
        }
    } else {
        e.change as int
    }
}

/// The net movement of batch `b` since its receipt.
pub open spec fn net_movement(h: Seq<HistoryEntry>, b: int) -> int
    decreases h.len(),
{
    if h.len() == 0 {
        0
    } else {
        net_movement(h.drop_last(), b) + movement(h.last(), b)
    }
}

/// Units of sale item `si` taken back so far.
pub open spec fn returned(r: Seq<ReturnItem>, si: int) -> int
    decreases r.len(),
{
    if r.len() == 0 {
        0
    } else {
        returned(r.drop_last(), si) + if r.last().sale_item_id == si {
            r.last().quantity as int
        } else {
            0
        }
    }
}

impl LedgerView {
    /// The ledger's invariant: ids are indices and every reference names an
    /// existing row; batch quantities are never negative and reconcile with
    /// the history; each sale's change is its cash less its total; and no
    /// sale item has been returned beyond what it sold.
    pub open spec fn wf(self) -> bool {
        &&& forall|i: int|
            0 <= i < self.products.len() ==> (#[trigger] self.products[i]).id == i
                && self.products[i].selling_price > 0
        &&& forall|i: int|
            0 <= i < self.batches.len() ==> {
                let b = #[trigger] self.batches[i];
                &&& b.id == i
                &&& b.product_id < self.products.len()
                &&& b.cost_price >= 0
                &&& b.received >= 0
                &&& b.quantity >= 0
                &&& b.quantity == b.received + net_movement(self.history, i)
            }
        &&& forall|i: int|
            0 <= i < self.history.len() ==> (#[trigger] self.history[i]).batch_id
                < self.batches.len()
        &&& forall|i: int|
            0 <= i < self.sales.len() ==> (#[trigger] self.sales[i]).id == i && self.sales[i].change
                == self.sales[i].cash_received - self.sales[i].total && self.sales[i].change >= 0
        &&& forall|i: int|
            0 <= i < self.sale_items.len() ==> {
                let s = #[trigger] self.sale_items[i];
                &&& s.id == i
                &&& s.sale_id < self.sales.len()
                &&& s.batch_id < self.batches.len()
                &&& s.quantity > 0
            }
        &&& forall|i: int|
            0 <= i < self.returns.len() ==> (#[trigger] self.returns[i]).id == i
                && self.returns[i].sale_id < self.sales.len()
        &&& forall|i: int|
            0 <= i < self.return_items.len() ==> {
                let r = #[trigger] self.return_items[i];
                &&& r.id == i
                &&& r.return_id < self.returns.len()
                &&& r.sale_item_id < self.sale_items.len()
                &&& r.quantity > 0
            }
        &&& forall|i: int|
            0 <= i < self.sale_items.len() ==> #[trigger] returned(self.return_items, i)
                <= self.sale_items[i].quantity
    }

    /// What the planner sees: each batch with what it can give.
    pub open spec fn stock(self) -> Seq<StockSlot> {
        Seq::new(
            self.batches.len(),
            |i: int|
                StockSlot {
                    product_id: self.batches[i].product_id,
                    available: if self.batches[i].lifecycle == Lifecycle::Active {
                        self.batches[i].quantity
                    } else {
                        0
                    },
                    expiration: self.batches[i].expiration,
                },
        )
    }

    /// Batch `b` exists and has not been retired.
    pub open spec fn is_live(self, b: int) -> bool {
        0 <= b < self.batches.len() && self.batches[b].lifecycle == Lifecycle::Active
    }

    /// The same ledger with batch `b` holding `q` units.
    pub open spec fn with_quantity(self, b: int, q: int) -> Seq<Batch> {
        self.batches.update(b, Batch { quantity: q as i64, ..self.batches[b] })
    }
}


pub(crate) proof fn lemma_net_movement_push(h: Seq<HistoryEntry>, e: HistoryEntry, b: int)
    ensures
        net_movement(h.push(e), b) == net_movement(h, b) + movement(e, b),
{
    assert(h.push(e).drop_last() =~= h);
}

pub(crate) proof fn lemma_net_movement_unreferenced(h: Seq<HistoryEntry>, b: int)
    requires
        forall|k: int| 0 <= k < h.len() ==> #[trigger] h[k].batch_id < b,
    ensures
        net_movement(h, b) == 0,
    decreases h.len(),
{
    if h.len() > 0 {
        let d = h.drop_last();
        assert forall|k: int| 0 <= k < d.len() implies #[trigger] d[k].batch_id < b by {
            assert(d[k] == h[k]);
        }
        lemma_net_movement_unreferenced(d, b);
    }
}

pub(crate) proof fn lemma_returned_push(r: Seq<ReturnItem>, e: ReturnItem, si: int)
    ensures
        returned(r.push(e), si) == returned(r, si) + if e.sale_item_id == si {
            e.quantity as int
        } else {
            0
        },
{
    assert(r.push(e).drop_last() =~= r);
}

pub(crate) proof fn lemma_returned_unreferenced(r: Seq<ReturnItem>, si: int)
    requires
        forall|k: int| 0 <= k < r.len() ==> #[trigger] r[k].sale_item_id < si,
    ensures
        returned(r, si) == 0,
    decreases r.len(),
{
    if r.len() > 0 {
        let d = r.drop_last();
        assert forall|k: int| 0 <= k < d.len() implies #[trigger] d[k].sale_item_id < si by {
            assert(d[k] == r[k]);
        }
        lemma_returned_unreferenced(d, si);
    }
}

/// Units put back into batch `b` by returns, adjustments and corrections.
pub open spec fn restocked(h: Seq<HistoryEntry>, b: int) -> int
    decreases h.len(),
{
    if h.len() == 0 {
        0
    } else {
        let e = h.last();
        restocked(h.drop_last(), b) + if e.batch_id == b && (e.reason == Reason::Return
            || e.reason == Reason::Adjustment || e.reason == Reason::Correction) {
            e.change as int
        } else {
            0
        }
    }
}

/// Units taken out of batch `b` by sales, as magnitudes.
pub open spec fn sold(h: Seq<HistoryEntry>, b: int) -> int
    decreases h.len(),
{
    if h.len() == 0 {
        0
    } else {
        let e = h.last();
        sold(h.drop_last(), b) + if e.batch_id == b && e.reason == Reason::Sale {
            if e.change < 0 {
                -e.change
            } else {
                e.change as int
            }
        } else {
            0
        }
    }
}

proof fn lemma_net_movement_split(h: Seq<HistoryEntry>, b: int)
    ensures
        net_movement(h, b) == restocked(h, b) - sold(h, b),
    decreases h.len(),
{
    if h.len() > 0 {
        lemma_net_movement_split(h.drop_last(), b);
    }
}

/// No batch of a well-formed ledger ever holds a negative quantity; every
/// operation of the ledger keeps it well formed.
pub proof fn lemma_quantity_nonnegative(l: LedgerView, b: int)
    requires
        l.wf(),
        0 <= b < l.batches.len(),
    ensures
        l.batches[b].quantity >= 0,
{
}

/// A batch's quantity is what it received, plus what returns, adjustments
/// and corrections put back, minus what sales took.
pub proof fn lemma_reconciliation(l: LedgerView, b: int)
    requires
        l.wf(),
        0 <= b < l.batches.len(),
    ensures
        l.batches[b].quantity == l.batches[b].received + restocked(l.history, b) - sold(
            l.history,
            b,
        ),
{
    lemma_net_movement_split(l.history, b);
}

/// Every committed sale's change is exactly the cash received less the
/// total, and never negative.
pub proof fn lemma_change_correct(l: LedgerView, s: int)
    requires
        l.wf(),
        0 <= s < l.sales.len(),
    ensures
        l.sales[s].change == l.sales[s].cash_received - l.sales[s].total,
        l.sales[s].cash_received >= l.sales[s].total,
{
}

/// What has been returned against a sale item never exceeds what it sold.
pub proof fn lemma_return_bound(l: LedgerView, si: int)
    requires
        l.wf(),
        0 <= si < l.sale_items.len(),
    ensures
        returned(l.return_items, si) <= l.sale_items[si].quantity,
{
}

} // verus!
