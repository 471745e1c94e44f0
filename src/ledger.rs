//! The ledger: the batch store with its history, and the sale and
//! return coordinators that commit all or nothing.
use vstd::prelude::*;
use crate::model::{
    Batch, HistoryEntry, LedgerError, LedgerView, Lifecycle, Product, Reason, Return, ReturnItem,
    ReturnLine, ReturnType, Sale, SaleItem, SaleLine, lemma_net_movement_push,
    lemma_net_movement_unreferenced, lemma_returned_push, lemma_returned_unreferenced, net_movement,
    returned,
};
use crate::transaction::{
    as_allocation, demand_in, drawn, items_amount, lemma_available_upto_grows, lemma_drawn_prefix,
    lemma_drawn_push, lemma_first_error_stable, lemma_first_return_error_stable,
    lemma_no_return_error, lemma_returned_prefix, lemma_same_draws, line_planned, lines_planned,
    return_committed, return_entry, return_item_of, returned_in, run_of, sale_committed, sale_entry,
    sale_follows_fefo, stock_after, with_id, with_q,
};
use crate::plan::{
    Allocation, StockSlot, allocated, apply_plan, avail_of, available_total, available_upto,
    drawn_down, is_fefo_plan, lemma_taken_push, plan_fefo, taken,
};

verus! {

/// The ledger: products, batches, history, sales and returns.
pub struct Ledger {
    products: Vec<Product>,
    batches: Vec<Batch>,
    history: Vec<HistoryEntry>,
    sales: Vec<Sale>,
    sale_items: Vec<SaleItem>,
    returns: Vec<Return>,
    return_items: Vec<ReturnItem>,
}

impl View for Ledger {
    type V = LedgerView;

    closed spec fn view(&self) -> LedgerView {
        LedgerView {
            products: self.products@,
            batches: self.batches@,
            history: self.history@,
            sales: self.sales@,
            sale_items: self.sale_items@,
            returns: self.returns@,
            return_items: self.return_items@,
        }
    }
}

impl Ledger {
    /// The ledger's invariant, stated on its model.
    pub closed spec fn wf(&self) -> bool {
        self@.wf()
    }

    /// A well-formed ledger has a well-formed model, so the laws stated on
    /// the model apply to it.
    pub proof fn lemma_wf_view(&self)
        requires
            self.wf(),
        ensures
            self@.wf(),
    {
    }

    /// An empty ledger.
    pub fn new() -> (r: Ledger)
        ensures
            r.wf(),
            r@.products.len() == 0,
            r@.batches.len() == 0,
            r@.history.len() == 0,
            r@.sales.len() == 0,
            r@.sale_items.len() == 0,
            r@.returns.len() == 0,
            r@.return_items.len() == 0,
    {
        Ledger {
            products: Vec::new(),
            batches: Vec::new(),
            history: Vec::new(),
            sales: Vec::new(),
            sale_items: Vec::new(),
            returns: Vec::new(),
            return_items: Vec::new(),
        }
    }

    /// Registers a product with its selling price in cents, which must be
    /// positive; returns its id.
    pub fn add_product(&mut self, selling_price: i64) -> (r: Result<usize, LedgerError>)
        requires
            old(self).wf(),
        ensures
            final(self).wf(),
            selling_price <= 0 ==> r == Err::<usize, LedgerError>(LedgerError::InvalidPrice)
                && final(self)@ == old(self)@,
            selling_price > 0 ==> r == Ok::<usize, LedgerError>(old(self)@.products.len() as usize)
                && final(self)@ == (LedgerView {
                products: old(self)@.products.push(
                    Product { id: old(self)@.products.len() as usize, selling_price },
                ),
                ..old(self)@
            }),
    {
        if selling_price <= 0 {
            return Err(LedgerError::InvalidPrice);
        }
        let id = self.products.len();
        self.products.push(Product { id, selling_price });
        Ok(id)
    }

    /// Receives a new batch of a product; returns its id. The receipt is
    /// recorded in the history.
    pub fn create_batch(
        &mut self,
        product_id: usize,
        cost_price: i64,
        quantity: i64,
        expiration: Option<u32>,
        batch_number: Option<String>,
    ) -> (r: Result<usize, LedgerError>)
        requires
            old(self).wf(),
        ensures
            final(self).wf(),
            r is Err ==> final(self)@ == old(self)@,
            quantity < 0 ==> r == Err::<usize, LedgerError>(LedgerError::InvalidQuantity),
            quantity >= 0 && cost_price < 0 ==> r == Err::<usize, LedgerError>(
                LedgerError::InvalidCostPrice,
            ),
            quantity >= 0 && cost_price >= 0 && product_id >= old(self)@.products.len() ==> r
                == Err::<usize, LedgerError>(LedgerError::UnknownProduct),
            quantity >= 0 && cost_price >= 0 && product_id < old(self)@.products.len() ==> r
                == Ok::<usize, LedgerError>(old(self)@.batches.len() as usize) && final(self)@
                == (LedgerView {
                batches: old(self)@.batches.push(
                    Batch {
                        id: old(self)@.batches.len() as usize,
                        product_id,
                        batch_number,
                        cost_price,
                        quantity,
                        received: quantity,
                        expiration,
                        lifecycle: Lifecycle::Active,
                    },
                ),
                history: old(self)@.history.push(
                    HistoryEntry {
                        batch_id: old(self)@.batches.len() as usize,
                        change: quantity,
                        reason: Reason::Receipt,
                    },
                ),
                ..old(self)@
            }),
    {
        if quantity < 0 {
            return Err(LedgerError::InvalidQuantity);
        }
        if cost_price < 0 {
            return Err(LedgerError::InvalidCostPrice);
        }
        if product_id >= self.products.len() {
            return Err(LedgerError::UnknownProduct);
        }
        let id = self.batches.len();
        let ghost old_h = self.history@;
        self.batches.push(
            Batch {
                id,
                product_id,
                batch_number,
                cost_price,
                quantity,
                received: quantity,
                expiration,
                lifecycle: Lifecycle::Active,
            },
        );
        let e = HistoryEntry { batch_id: id, change: quantity, reason: Reason::Receipt };
        self.history.push(e);
        proof {
            lemma_net_movement_unreferenced(old_h, id as int);
            assert forall|i: int| 0 <= i < self.batches@.len() implies net_movement(
                self.history@,
                i,
            ) == net_movement(old_h, i) by {
                lemma_net_movement_push(old_h, e, i);
            }
        }
        Ok(id)
    }

    /// Takes `amount` units out of a live batch, recording the change with
    /// the given reason (any but a receipt).
    pub fn deplete(&mut self, batch_id: usize, amount: i64, reason: Reason) -> (r: Result<
        (),
        LedgerError,
    >)
        requires
            old(self).wf(),
        ensures
            final(self).wf(),
            r is Err ==> final(self)@ == old(self)@,
            !old(self)@.is_live(batch_id as int) ==> r == Err::<(), LedgerError>(
                LedgerError::UnknownBatch,
            ),
            old(self)@.is_live(batch_id as int) && amount < 0 ==> r == Err::<(), LedgerError>(
                LedgerError::InvalidQuantity,
            ),
            old(self)@.is_live(batch_id as int) && amount >= 0 && reason == Reason::Receipt ==> r
                == Err::<(), LedgerError>(LedgerError::InvalidReason),
            old(self)@.is_live(batch_id as int) && amount >= 0 && reason != Reason::Receipt
                && amount > old(self)@.batches[batch_id as int].quantity ==> r == Err::<
                (),
                LedgerError,
            >(
                LedgerError::InsufficientStock {
                    product_id: old(self)@.batches[batch_id as int].product_id,
                    shortfall: (amount - old(self)@.batches[batch_id as int].quantity) as i64,
                },
            ),
            old(self)@.is_live(batch_id as int) && amount >= 0 && reason != Reason::Receipt
                && amount <= old(self)@.batches[batch_id as int].quantity ==> r is Ok && final(self)@ == (LedgerView {
                batches: old(self)@.with_quantity(
                    batch_id as int,
                    old(self)@.batches[batch_id as int].quantity - amount,
                ),
                history: old(self)@.history.push(
                    HistoryEntry { batch_id, change: -amount as i64, reason },
                ),
                ..old(self)@
            }),
    {
        if batch_id >= self.batches.len() || matches!(self.batches[batch_id].lifecycle, Lifecycle::Deleted { .. }) {
            return Err(LedgerError::UnknownBatch);
        }
        if amount < 0 {
            return Err(LedgerError::InvalidQuantity);
        }
        if matches!(reason, Reason::Receipt) {
            return Err(LedgerError::InvalidReason);
        }
        let q = self.batches[batch_id].quantity;
        if amount > q {
            return Err(
                LedgerError::InsufficientStock {
                    product_id: self.batches[batch_id].product_id,
                    shortfall: amount - q,
                },
            );
        }
        self.set_quantity(batch_id, q - amount, -amount, reason);
        Ok(())
    }

    /// Puts `amount` units back into a live batch, recording the change
    /// with the given reason (a return, an adjustment or a correction).
    pub fn restore(&mut self, batch_id: usize, amount: i64, reason: Reason) -> (r: Result<
        (),
        LedgerError,
    >)
        requires
            old(self).wf(),
        ensures
            final(self).wf(),
            r is Err ==> final(self)@ == old(self)@,
            !old(self)@.is_live(batch_id as int) ==> r == Err::<(), LedgerError>(
                LedgerError::UnknownBatch,
            ),
            old(self)@.is_live(batch_id as int) && amount < 0 ==> r == Err::<(), LedgerError>(
                LedgerError::InvalidQuantity,
            ),
            old(self)@.is_live(batch_id as int) && amount >= 0 && (reason == Reason::Receipt
                || reason == Reason::Sale) ==> r == Err::<(), LedgerError>(
                LedgerError::InvalidReason,
            ),
            old(self)@.is_live(batch_id as int) && amount >= 0 && reason != Reason::Receipt
                && reason != Reason::Sale && old(self)@.batches[batch_id as int].quantity + amount
                > i64::MAX ==> r == Err::<(), LedgerError>(LedgerError::Overflow),
            old(self)@.is_live(batch_id as int) && amount >= 0 && reason != Reason::Receipt
                && reason != Reason::Sale && old(self)@.batches[batch_id as int].quantity + amount
                <= i64::MAX ==> r is Ok && final(self)@ == (LedgerView {
                batches: old(self)@.with_quantity(
                    batch_id as int,
                    old(self)@.batches[batch_id as int].quantity + amount,
                ),
                history: old(self)@.history.push(HistoryEntry { batch_id, change: amount, reason }),
                ..old(self)@
            }),
    {
        if batch_id >= self.batches.len() || matches!(self.batches[batch_id].lifecycle, Lifecycle::Deleted { .. }) {
            return Err(LedgerError::UnknownBatch);
        }
        if amount < 0 {
            return Err(LedgerError::InvalidQuantity);
        }
        if matches!(reason, Reason::Receipt) || matches!(reason, Reason::Sale) {
            return Err(LedgerError::InvalidReason);
        }
        let q = self.batches[batch_id].quantity;
        if q > i64::MAX - amount {
            return Err(LedgerError::Overflow);
        }
        self.set_quantity(batch_id, q + amount, amount, reason);
        Ok(())
    }

    /// Sets the quantity of a batch and records the change in the history.
    fn set_quantity(&mut self, batch_id: usize, q: i64, change: i64, reason: Reason)
        requires
            old(self).wf(),
            batch_id < old(self)@.batches.len(),
            q >= 0,
            q == old(self)@.batches[batch_id as int].quantity + change,
            reason != Reason::Receipt,
            reason == Reason::Sale ==> change <= 0,
        ensures
            final(self).wf(),
            final(self)@ == (LedgerView {
                batches: old(self)@.with_quantity(batch_id as int, q as int),
                history: old(self)@.history.push(HistoryEntry { batch_id, change, reason }),
                ..old(self)@
            }),
    {
        let ghost old_h = self.history@;
        let ghost old_b = self.batches@;
        self.batches[batch_id].quantity = q;
        let e = HistoryEntry { batch_id, change, reason };
        self.history.push(e);
        proof {
            assert(self.batches@ =~= old_b.update(
                batch_id as int,
                Batch { quantity: q, ..old_b[batch_id as int] },
            ));
            assert forall|i: int| 0 <= i < self.batches@.len() implies net_movement(
                self.history@,
                i,
            ) == net_movement(old_h, i) + if i == batch_id {
                change as int
            } else {
                0
            } by {
                lemma_net_movement_push(old_h, e, i);
            }
        }
    }

    /// Retires a live batch for good, at time `deleted_at`. A batch that
    /// still holds stock is retired only when `force` is set.
    pub fn soft_delete(&mut self, batch_id: usize, force: bool, deleted_at: u64) -> (r: Result<
        (),
        LedgerError,
    >)
        requires
            old(self).wf(),
        ensures
            final(self).wf(),
            r is Err ==> final(self)@ == old(self)@,
            !old(self)@.is_live(batch_id as int) ==> r == Err::<(), LedgerError>(
                LedgerError::UnknownBatch,
            ),
            old(self)@.is_live(batch_id as int) && old(self)@.batches[batch_id as int].quantity != 0
                && !force ==> r == Err::<(), LedgerError>(LedgerError::NonZeroQuantity),
            old(self)@.is_live(batch_id as int) && (old(self)@.batches[batch_id as int].quantity
                == 0 || force) ==> r is Ok && final(self)@ == (LedgerView {
                batches: old(self)@.batches.update(
                    batch_id as int,
                    Batch {
                        lifecycle: Lifecycle::Deleted { at: deleted_at },
                        ..old(self)@.batches[batch_id as int]
                    },
                ),
                ..old(self)@
            }),
    {
        if batch_id >= self.batches.len() || matches!(self.batches[batch_id].lifecycle, Lifecycle::Deleted { .. }) {
            return Err(LedgerError::UnknownBatch);
        }
        if self.batches[batch_id].quantity != 0 && !force {
            return Err(LedgerError::NonZeroQuantity);
        }
        let ghost old_b = self.batches@;
        self.batches[batch_id].lifecycle = Lifecycle::Deleted { at: deleted_at };
        proof {
            assert(self.batches@ =~= old_b.update(
                batch_id as int,
                Batch { lifecycle: Lifecycle::Deleted { at: deleted_at }, ..old_b[batch_id as int] },
            ));
        }
        Ok(())
    }

    /// What the planner sees of the current stock.
    fn snapshot(&self) -> (r: Vec<StockSlot>)
        ensures
            r@ == self@.stock(),
    {
        let mut r: Vec<StockSlot> = Vec::new();
        let mut i: usize = 0;
        while i < self.batches.len()
            invariant
                i <= self.batches@.len(),
                r@.len() == i,
                forall|k: int| 0 <= k < i ==> #[trigger] r@[k] == self@.stock()[k],
            decreases self.batches@.len() - i,
        {
            let b = &self.batches[i];
            let available = if matches!(b.lifecycle, Lifecycle::Active) {
                b.quantity
            } else {
                0
            };
            r.push(StockSlot { product_id: b.product_id, available, expiration: b.expiration });
            i += 1;
        }
        proof {
            assert(r@ =~= self@.stock());
        }
        r
    }

    /// Plans `requested` units of a product over the current stock, without
    /// changing anything.
    pub fn plan(&self, product_id: usize, requested: i64) -> (r: Result<
        Vec<Allocation>,
        LedgerError,
    >)
        requires
            self.wf(),
        ensures
            product_id >= self@.products.len() ==> r == Err::<Vec<Allocation>, LedgerError>(
                LedgerError::UnknownProduct,
            ),
            product_id < self@.products.len() && requested <= 0 ==> r == Err::<
                Vec<Allocation>,
                LedgerError,
            >(LedgerError::InvalidQuantity),
            product_id < self@.products.len() && requested > 0 ==> match r {
                Ok(a) => available_total(self@.stock(), product_id) >= requested && is_fefo_plan(
                    self@.stock(),
                    product_id,
                    requested as int,
                    a@,
                ),
                Err(e) => available_total(self@.stock(), product_id) < requested && e
                    == LedgerError::InsufficientStock {
                    product_id,
                    shortfall: (requested - available_total(self@.stock(), product_id)) as i64,
                },
            },
    {
        if product_id >= self.products.len() {
            return Err(LedgerError::UnknownProduct);
        }
        if requested <= 0 {
            return Err(LedgerError::InvalidQuantity);
        }
        let stock = self.snapshot();
        match plan_fefo(&stock, product_id, requested) {
            Ok(a) => Ok(a),
            Err(shortfall) => Err(LedgerError::InsufficientStock { product_id, shortfall }),
        }
    }

    /// Sells the requested lines for `cash_received` cents. Each line is
    /// planned first-expired-first-out against the stock that the lines
    /// before it leave; the sale, its items, the depletions and their history
    /// entries are committed together, or nothing is.
    pub fn execute_sale(&mut self, lines: &Vec<SaleLine>, cash_received: i64) -> (r: Result<
        usize,
        LedgerError,
    >)
        requires
            old(self).wf(),
        ensures
            final(self).wf(),
            r is Err ==> final(self)@ == old(self)@,
            old(self)@.first_line_error(lines@, lines@.len() as int) is Some ==> r == Err::<
                usize,
                LedgerError,
            >(old(self)@.first_line_error(lines@, lines@.len() as int)->0),
            old(self)@.first_line_error(lines@, lines@.len() as int) is None && cash_received
                < old(self)@.sale_amount(lines@, lines@.len() as int) ==> r == Err::<
                usize,
                LedgerError,
            >(LedgerError::InsufficientCash),
            old(self)@.first_line_error(lines@, lines@.len() as int) is None && cash_received
                >= old(self)@.sale_amount(lines@, lines@.len() as int) ==> r == Ok::<
                usize,
                LedgerError,
            >(old(self)@.sales.len() as usize) && sale_committed(
                old(self)@,
                final(self)@,
                old(self)@.sale_amount(lines@, lines@.len() as int),
                cash_received as int,
            ) && sale_follows_fefo(
                old(self)@,
                lines@,
                final(self)@.sale_items.subrange(
                    old(self)@.sale_items.len() as int,
                    final(self)@.sale_items.len() as int,
                ),
            ),
    {
        let ghost v = self@;
        let mut stock = self.snapshot();
        let ghost stock0 = stock@;
        let n_lines = lines.len();
        let sale_id = self.sales.len();
        let mut draws: Vec<SaleItem> = Vec::new();
        let mut total: i64 = 0;
        let ghost mut starts: Seq<int> = seq![0];
        let mut k: usize = 0;
        while k < n_lines
            invariant
                starts.len() == k + 1,
                starts[0] == 0,
                starts[k as int] == draws@.len(),
                forall|k2: int|
                    0 <= k2 < k ==> #[trigger] line_planned(v, lines@, draws@, starts, k2),
                v == self@,
                v.wf(),
                stock0 == v.stock(),
                n_lines == lines.len(),
                sale_id == v.sales.len(),
                k <= n_lines,
                v.first_line_error(lines@, k as int) is None,
                total == v.sale_amount(lines@, k as int),
                total >= 0,
                stock@.len() == stock0.len(),
                forall|i: int|
                    0 <= i < stock0.len() ==> #[trigger] stock@[i] == drawn_down(
                        stock0[i],
                        drawn(draws@, i),
                    ),
                forall|i: int|
                    0 <= i < stock0.len() ==> 0 <= #[trigger] drawn(draws@, i)
                        <= stock0[i].available,
                forall|q: usize|
                    #[trigger] available_total(stock@, q) == available_total(stock0, q)
                        - demand_in(lines@, k as int, q),
                forall|j: int|
                    0 <= j < draws@.len() ==> {
                        let d = #[trigger] draws@[j];
                        &&& d.sale_id == sale_id
                        &&& d.batch_id < stock0.len()
                        &&& d.quantity > 0
                        &&& d.price_at_sale == v.price_of(v.batches[d.batch_id as int].product_id)
                    },
                items_amount(draws@) == total,
            decreases n_lines - k,
        {
            let line = lines[k];
            proof {
                lemma_first_error_stable(v, lines@, k as int + 1, n_lines as int);
            }
            if line.quantity <= 0 {
                return Err(LedgerError::InvalidLineItem);
            }
            if line.product_id >= self.products.len() {
                return Err(LedgerError::UnknownProduct);
            }
            let price = self.products[line.product_id].selling_price;
            let planned = plan_fefo(&stock, line.product_id, line.quantity);
            let a = match planned {
                Err(shortfall) => {
                    return Err(
                        LedgerError::InsufficientStock { product_id: line.product_id, shortfall },
                    );
                },
                Ok(a) => a,
            };
            proof {
                assert(line.quantity * price <= i64::MAX * i64::MAX) by (nonlinear_arith)
                    requires
                        0 < line.quantity <= i64::MAX,
                        0 < price <= i64::MAX,
                ;
            }
            let amount: i128 = (line.quantity as i128) * (price as i128);
            if amount > (i64::MAX - total) as i128 {
                return Err(LedgerError::Overflow);
            }
            total = total + amount as i64;
            let ghost before = stock@;
            let ghost draws0 = draws@;
            apply_plan(&mut stock, line.product_id, line.quantity, &a);
            let mut j: usize = 0;
            while j < a.len()
                invariant
                    v == self@,
                    v.wf(),
                    stock0 == v.stock(),
                    sale_id == v.sales.len(),
                    j <= a@.len(),
                    is_fefo_plan(before, line.product_id, line.quantity as int, a@),
                    price == v.price_of(line.product_id),
                    before.len() == stock0.len(),
                    forall|i: int|
                        0 <= i < stock0.len() ==> before[i].product_id == stock0[i].product_id,
                    forall|i: int|
                        0 <= i < stock0.len() ==> #[trigger] drawn(draws@, i) == drawn(draws0, i)
                            + taken(a@.take(j as int), i),
                    items_amount(draws@) == items_amount(draws0) + allocated(a@.take(j as int))
                        * price,
                    draws@.len() == draws0.len() + j,
                    forall|i: int| 0 <= i < draws0.len() ==> #[trigger] draws@[i] == draws0[i],
                    forall|i: int|
                        0 <= i < j ==> #[trigger] as_allocation(draws@[draws0.len() + i])
                            == a@[i],
                    forall|i: int|
                        draws0.len() <= i < draws@.len() ==> {
                            let d = #[trigger] draws@[i];
                            &&& d.sale_id == sale_id
                            &&& d.batch_id < stock0.len()
                            &&& d.quantity > 0
                            &&& d.price_at_sale == v.price_of(
                                v.batches[d.batch_id as int].product_id,
                            )
                        },
                decreases a@.len() - j,
            {
                let e = a[j];
                let d = SaleItem {
                    id: 0,
                    sale_id,
                    batch_id: e.batch_id,
                    quantity: e.quantity,
                    price_at_sale: price,
                };
                let ghost pre = draws@;
                draws.push(d);
                proof {
                    assert(a@.take(j as int + 1) =~= a@.take(j as int).push(e));
                    lemma_taken_push(a@.take(j as int), e, 0);
                    assert forall|i: int| 0 <= i < stock0.len() implies #[trigger] drawn(draws@, i)
                        == drawn(draws0, i) + taken(a@.take(j as int + 1), i) by {
                        lemma_drawn_push(pre, d, i);
                        lemma_taken_push(a@.take(j as int), e, i);
                    }
                    lemma_drawn_push(pre, d, 0);
                    let x = allocated(a@.take(j as int));
                    assert((x + e.quantity) * price == x * price + e.quantity * price)
                        by (nonlinear_arith);
                }
                j += 1;
            }
            proof {
                assert(a@.take(a@.len() as int) =~= a@);
                assert forall|i: int| 0 <= i < stock0.len() implies #[trigger] stock@[i]
                    == drawn_down(stock0[i], drawn(draws@, i)) && 0 <= drawn(draws@, i)
                    <= stock0[i].available by {
                    assert(before[i] == drawn_down(stock0[i], drawn(draws0, i)));
                    assert(0 <= taken(a@, i) <= avail_of(before, line.product_id, i));
                }
                assert forall|q: usize| #[trigger]
                    available_total(stock@, q) == available_total(stock0, q) - demand_in(
                        lines@,
                        k as int + 1,
                        q,
                    ) by {
                    assert(available_total(before, q) == available_total(stock0, q) - demand_in(
                        lines@,
                        k as int,
                        q,
                    ));
                }
                assert(available_total(before, line.product_id) == available_total(
                    stock0,
                    line.product_id,
                ) - demand_in(lines@, k as int, line.product_id));
                let old_starts = starts;
                starts = starts.push(draws@.len() as int);
                assert(draws@.take(draws0.len() as int) =~= draws0);
                assert(stock_after(v, draws0) =~= before);
                assert forall|i: int| 0 <= i < a@.len() implies #[trigger] run_of(
                    draws@,
                    draws0.len() as int,
                    draws@.len() as int,
                )[i] == a@[i] by {
                    assert(as_allocation(draws@[draws0.len() + i]) == a@[i]);
                }
                assert(run_of(draws@, draws0.len() as int, draws@.len() as int) =~= a@);
                assert(line_planned(v, lines@, draws@, starts, k as int));
                assert forall|k2: int| 0 <= k2 < k + 1 implies #[trigger] line_planned(
                    v,
                    lines@,
                    draws@,
                    starts,
                    k2,
                ) by {
                    if k2 < k {
                        assert(line_planned(v, lines@, draws0, old_starts, k2));
                        assert(draws@.take(starts[k2]) =~= draws0.take(starts[k2]));
                        assert(run_of(draws@, starts[k2], starts[k2 + 1]) =~= run_of(
                            draws0,
                            starts[k2],
                            starts[k2 + 1],
                        ));
                    }
                }
            }
            k += 1;
        }
        if cash_received < total {
            return Err(LedgerError::InsufficientCash);
        }
        let base = self.sale_items.len();
        self.commit_sale(&draws, total, cash_received);
        proof {
            let items = self@.sale_items.subrange(base as int, self@.sale_items.len() as int);
            assert forall|k2: int| 0 <= k2 < lines@.len() implies #[trigger] line_planned(
                v,
                lines@,
                items,
                starts,
                k2,
            ) by {
                assert(line_planned(v, lines@, draws@, starts, k2));
                let (x, y) = (items.take(starts[k2]), draws@.take(starts[k2]));
                assert forall|i: int| 0 <= i < x.len() implies (#[trigger] x[i]).batch_id
                    == y[i].batch_id && x[i].quantity == y[i].quantity && x[i].price_at_sale
                    == y[i].price_at_sale by {
                    assert(x[i] == self@.sale_items[base + i]);
                }
                lemma_same_draws(x, y);
                assert(stock_after(v, x) =~= stock_after(v, y));
                assert forall|i: int| starts[k2] <= i < starts[k2 + 1] implies as_allocation(
                    #[trigger] items[i],
                ) == as_allocation(draws@[i]) by {
                    assert(items[i] == self@.sale_items[base + i]);
                }
                assert(run_of(items, starts[k2], starts[k2 + 1]) =~= run_of(
                    draws@,
                    starts[k2],
                    starts[k2 + 1],
                ));
            }
            assert(lines_planned(v, lines@, items, starts));
        }
        Ok(sale_id)
    }

    /// Appends a sale item that references an existing sale and batch.
    fn push_sale_item(&mut self, it: SaleItem)
        requires
            old(self).wf(),
            it.id == old(self)@.sale_items.len(),
            it.sale_id < old(self)@.sales.len(),
            it.batch_id < old(self)@.batches.len(),
            it.quantity > 0,
        ensures
            final(self).wf(),
            final(self)@ == (LedgerView { sale_items: old(self)@.sale_items.push(it), ..old(self)@ }),
    {
        proof {
            lemma_returned_unreferenced(self@.return_items, it.id as int);
        }
        self.sale_items.push(it);
    }

    /// Commits a planned sale: the sale row, one item per draw, and the
    /// depletion of each drawn batch with its history entry.
    fn commit_sale(&mut self, draws: &Vec<SaleItem>, total: i64, cash_received: i64)
        requires
            old(self).wf(),
            0 <= total <= cash_received,
            items_amount(draws@) == total,
            forall|j: int|
                0 <= j < draws@.len() ==> {
                    let d = #[trigger] draws@[j];
                    &&& d.sale_id == old(self)@.sales.len()
                    &&& d.batch_id < old(self)@.batches.len()
                    &&& d.quantity > 0
                    &&& d.price_at_sale == old(self)@.price_of(
                        old(self)@.batches[d.batch_id as int].product_id,
                    )
                },
            forall|i: int|
                0 <= i < old(self)@.batches.len() ==> #[trigger] drawn(draws@, i) <= old(
                    self,
                )@.stock()[i].available,
        ensures
            final(self).wf(),
            sale_committed(old(self)@, final(self)@, total as int, cash_received as int),
            final(self)@.sale_items.len() == old(self)@.sale_items.len() + draws@.len(),
            forall|k: int|
                0 <= k < draws@.len() ==> #[trigger] final(self)@.sale_items[old(
                    self,
                )@.sale_items.len() + k] == with_id(draws@[k], old(self)@.sale_items.len() + k),
    {
        let ghost v = self@;
        let sale_id = self.sales.len();
        let ghost sale = Sale { id: sale_id, total, cash_received, change: (cash_received - total) as i64 };
        self.sales.push(Sale { id: sale_id, total, cash_received, change: cash_received - total });
        let base = self.sale_items.len();
        let ghost hbase = self.history@.len();
        proof {
            assert(self@.sales == v.sales.push(sale));
            assert forall|i: int| 0 <= i < self@.sales.len() implies (#[trigger] self@.sales[i]).id
                == i && self@.sales[i].change == self@.sales[i].cash_received
                - self@.sales[i].total && self@.sales[i].change >= 0 by {
                if i < v.sales.len() {
                    assert(self@.sales[i] == v.sales[i]);
                }
            }
            assert forall|i: int| 0 <= i < self@.sale_items.len() implies (
            #[trigger] self@.sale_items[i]).sale_id < self@.sales.len() by {
                assert(self@.sale_items[i] == v.sale_items[i]);
            }
            assert forall|i: int| 0 <= i < self@.returns.len() implies (
            #[trigger] self@.returns[i]).sale_id < self@.sales.len() by {
                assert(self@.returns[i] == v.returns[i]);
            }
            assert(self@.products == v.products);
            assert(self@.batches == v.batches);
            assert(self@.history == v.history);
            assert(self@.sale_items == v.sale_items);
            assert(self@.returns == v.returns);
            assert(self@.return_items == v.return_items);
            assert(self.wf());
            assert(draws@.take(0) =~= Seq::<SaleItem>::empty());
        }
        let mut j: usize = 0;
        while j < draws.len()
            invariant
                v.wf(),
                self.wf(),
                sale_id == v.sales.len(),
                base == v.sale_items.len(),
                hbase == v.history.len(),
                j <= draws@.len(),
                forall|j: int|
                    0 <= j < draws@.len() ==> {
                        let d = #[trigger] draws@[j];
                        &&& d.sale_id == v.sales.len()
                        &&& d.batch_id < v.batches.len()
                        &&& d.quantity > 0
                    },
                forall|i: int|
                    0 <= i < v.batches.len() ==> #[trigger] drawn(draws@, i)
                        <= v.stock()[i].available,
                self@.products == v.products,
                self@.returns == v.returns,
                self@.return_items == v.return_items,
                self@.sales == v.sales.push(sale),
                self@.sale_items.len() == base + j,
                forall|k: int| 0 <= k < base ==> #[trigger] self@.sale_items[k] == v.sale_items[k],
                forall|k: int|
                    0 <= k < j ==> #[trigger] self@.sale_items[base + k] == with_id(
                        draws@[k],
                        base + k,
                    ),
                self@.batches.len() == v.batches.len(),
                forall|b: int|
                    0 <= b < v.batches.len() ==> #[trigger] self@.batches[b] == with_q(
                        v.batches[b],
                        v.batches[b].quantity - drawn(draws@.take(j as int), b),
                    ),
                self@.history.len() == hbase + j,
                forall|k: int| 0 <= k < hbase ==> #[trigger] self@.history[k] == v.history[k],
                forall|k: int|
                    0 <= k < j ==> #[trigger] self@.history[hbase + k] == sale_entry(draws@[k]),
            decreases draws@.len() - j,
        {
            let d = draws[j];
            let id = self.sale_items.len();
            self.push_sale_item(
                SaleItem {
                    id,
                    sale_id: d.sale_id,
                    batch_id: d.batch_id,
                    quantity: d.quantity,
                    price_at_sale: d.price_at_sale,
                },
            );
            let b = d.batch_id;
            proof {
                assert(draws@.take(j as int + 1) =~= draws@.take(j as int).push(d));
                lemma_drawn_push(draws@.take(j as int), d, b as int);
                lemma_drawn_prefix(draws@, j as int + 1, b as int);
                assert forall|b2: int| 0 <= b2 < v.batches.len() implies drawn(
                    draws@.take(j as int + 1),
                    b2,
                ) == drawn(draws@.take(j as int), b2) + if b2 == b {
                    d.quantity as int
                } else {
                    0
                } by {
                    lemma_drawn_push(draws@.take(j as int), d, b2);
                }
            }
            let q = self.batches[b].quantity;
            proof {
                lemma_drawn_prefix(draws@, j as int, b as int);
                assert(drawn(draws@, b as int) <= v.stock()[b as int].available);
                assert(v.stock()[b as int].available <= v.batches[b as int].quantity);
                assert(self@.batches[b as int] == with_q(
                    v.batches[b as int],
                    v.batches[b as int].quantity - drawn(draws@.take(j as int), b as int),
                ));
            }
            let ghost mid = self@.batches;
            self.set_quantity(b, q - d.quantity, -d.quantity, Reason::Sale);
            proof {
                assert forall|b2: int| 0 <= b2 < v.batches.len() implies #[trigger] self@.batches[b2]
                    == with_q(
                    v.batches[b2],
                    v.batches[b2].quantity - drawn(draws@.take(j as int + 1), b2),
                ) by {
                    assert(mid[b2] == with_q(
                        v.batches[b2],
                        v.batches[b2].quantity - drawn(draws@.take(j as int), b2),
                    ));
                    assert(drawn(draws@.take(j as int + 1), b2) == drawn(draws@.take(j as int), b2)
                        + if b2 == b {
                        d.quantity as int
                    } else {
                        0
                    });
                }
            }
            j += 1;
        }
        proof {
            assert(draws@.take(draws@.len() as int) =~= draws@);
            let items = self@.sale_items.subrange(base as int, self@.sale_items.len() as int);
            assert forall|k: int| 0 <= k < items.len() implies (#[trigger] items[k]).batch_id
                == draws@[k].batch_id && items[k].quantity == draws@[k].quantity
                && items[k].price_at_sale == draws@[k].price_at_sale by {
                assert(items[k] == self@.sale_items[base + k]);
            }
            lemma_same_draws(items, draws@);
            assert forall|b: int| 0 <= b < v.batches.len() implies #[trigger] self@.batches[b]
                == with_q(v.batches[b], v.batches[b].quantity - drawn(items, b)) by {
                assert(drawn(items, b) == drawn(draws@, b));
            }
            assert forall|k: int| 0 <= k < items.len() implies {
                let it = #[trigger] items[k];
                &&& it.id == base + k
                &&& it.sale_id == v.sales.len()
                &&& it.batch_id < v.batches.len()
                &&& it.price_at_sale == v.price_of(v.batches[it.batch_id as int].product_id)
            } by {
                assert(items[k] == self@.sale_items[base + k]);
                assert(draws@[k].price_at_sale == v.price_of(
                    v.batches[draws@[k].batch_id as int].product_id,
                ));
            }
            assert(items_amount(items) == total);
            assert(self@.sale_items.subrange(0, base as int) =~= v.sale_items);
            assert(self@.history.subrange(0, hbase as int) =~= v.history);
            assert forall|k: int| 0 <= k < items.len() implies #[trigger] self@.history[hbase + k]
                == (HistoryEntry {
                batch_id: items[k].batch_id,
                change: -items[k].quantity as i64,
                reason: Reason::Sale,
            }) by {
                assert(items[k] == self@.sale_items[base + k]);
            }
        }
    }

    /// Appends a return item that stays within what its sale item sold.
    fn push_return_item(&mut self, it: ReturnItem)
        requires
            old(self).wf(),
            it.id == old(self)@.return_items.len(),
            it.return_id < old(self)@.returns.len(),
            it.sale_item_id < old(self)@.sale_items.len(),
            it.quantity > 0,
            returned(old(self)@.return_items, it.sale_item_id as int) + it.quantity <= old(
                self,
            )@.sale_items[it.sale_item_id as int].quantity,
        ensures
            final(self).wf(),
            final(self)@ == (LedgerView {
                return_items: old(self)@.return_items.push(it),
                ..old(self)@
            }),
    {
        let ghost r0 = self@.return_items;
        self.return_items.push(it);
        proof {
            assert forall|si: int| 0 <= si < self@.sale_items.len() implies #[trigger] returned(
                self@.return_items,
                si,
            ) <= self@.sale_items[si].quantity by {
                lemma_returned_push(r0, it, si);
            }
        }
    }

    /// Takes back the given lines of sale `sale_id`. Each line names one of
    /// the sale's items and may take back at most what that item sold less
    /// what earlier returns, and earlier lines, took back. The return, its
    /// items, the restorations and their history entries are committed
    /// together, or nothing is. The refund is the caller's figure and is
    /// recorded as given.
    pub fn execute_return(
        &mut self,
        sale_id: usize,
        items: &Vec<ReturnLine>,
        return_type: ReturnType,
        refund_amount: i64,
        reason: String,
    ) -> (r: Result<usize, LedgerError>)
        requires
            old(self).wf(),
        ensures
            final(self).wf(),
            r is Err ==> final(self)@ == old(self)@,
            sale_id >= old(self)@.sales.len() ==> r == Err::<usize, LedgerError>(
                LedgerError::UnknownSale,
            ),
            sale_id < old(self)@.sales.len() && old(self)@.first_return_error(
                sale_id,
                items@,
                items@.len() as int,
            ) is Some ==> r == Err::<usize, LedgerError>(
                old(self)@.first_return_error(sale_id, items@, items@.len() as int)->0,
            ),
            sale_id < old(self)@.sales.len() && old(self)@.first_return_error(
                sale_id,
                items@,
                items@.len() as int,
            ) is None ==> r == Ok::<usize, LedgerError>(old(self)@.returns.len() as usize)
                && return_committed(
                old(self)@,
                final(self)@,
                items@,
                (Return {
                    id: old(self)@.returns.len() as usize,
                    sale_id,
                    refund_amount,
                    return_type,
                    reason,
                }),
            ),
    {
        if sale_id >= self.sales.len() {
            return Err(LedgerError::UnknownSale);
        }
        let ghost v = self@;
        let n_si = self.sale_items.len();
        let n_b = self.batches.len();
        let mut ret: Vec<i64> = Vec::new();
        let mut i: usize = 0;
        while i < n_si
            invariant
                v == self@,
                n_si == v.sale_items.len(),
                i <= n_si,
                ret@.len() == i,
                forall|k: int| 0 <= k < i ==> #[trigger] ret@[k] == 0,
            decreases n_si - i,
        {
            ret.push(0);
            i += 1;
        }
        proof {
            assert(v.return_items.take(0) =~= Seq::<ReturnItem>::empty());
        }
        let mut j: usize = 0;
        while j < self.return_items.len()
            invariant
                v == self@,
                v.wf(),
                n_si == v.sale_items.len(),
                j <= v.return_items.len(),
                ret@.len() == n_si,
                forall|si: int|
                    0 <= si < n_si ==> #[trigger] ret@[si] == returned(
                        v.return_items.take(j as int),
                        si,
                    ),
            decreases v.return_items.len() - j,
        {
            let ri = self.return_items[j];
            let si = ri.sale_item_id;
            proof {
                assert(v.return_items.take(j as int + 1) =~= v.return_items.take(j as int).push(ri));
                assert forall|si2: int| 0 <= si2 < n_si implies returned(
                    v.return_items.take(j as int + 1),
                    si2,
                ) == returned(v.return_items.take(j as int), si2) + if si2 == si {
                    ri.quantity as int
                } else {
                    0
                } by {
                    lemma_returned_push(v.return_items.take(j as int), ri, si2);
                }
                lemma_returned_prefix(v.return_items, j as int + 1, si as int);
            }
            let cur = ret[si];
            ret[si] = cur + ri.quantity;
            j += 1;
        }
        proof {
            assert(v.return_items.take(v.return_items.len() as int) =~= v.return_items);
        }
        let mut bq: Vec<i64> = Vec::new();
        let mut i: usize = 0;
        while i < n_b
            invariant
                v == self@,
                n_b == v.batches.len(),
                i <= n_b,
                bq@.len() == i,
                forall|k: int| 0 <= k < i ==> #[trigger] bq@[k] == v.batches[k].quantity,
            decreases n_b - i,
        {
            bq.push(self.batches[i].quantity);
            i += 1;
        }
        let mut k: usize = 0;
        while k < items.len()
            invariant
                v == self@,
                v.wf(),
                sale_id < v.sales.len(),
                n_si == v.sale_items.len(),
                n_b == v.batches.len(),
                k <= items@.len(),
                v.first_return_error(sale_id, items@, k as int) is None,
                ret@.len() == n_si,
                bq@.len() == n_b,
                forall|si: int|
                    0 <= si < n_si ==> #[trigger] ret@[si] == returned(v.return_items, si)
                        + returned_in(items@, k as int, si),
                forall|b: int|
                    0 <= b < n_b ==> #[trigger] bq@[b] == v.batches[b].quantity + v.restored_in(
                        items@,
                        k as int,
                        b,
                    ),
            decreases items@.len() - k,
        {
            proof {
                lemma_first_return_error_stable(v, sale_id, items@, k as int + 1, items@.len() as int);
            }
            let it = items[k];
            let si = it.sale_item_id;
            if si >= n_si || self.sale_items[si].sale_id != sale_id {
                return Err(LedgerError::UnknownSaleItem);
            }
            if it.quantity <= 0 {
                return Err(LedgerError::InvalidQuantity);
            }
            let sold_q = self.sale_items[si].quantity;
            let prior = ret[si];
            if prior > sold_q - it.quantity {
                return Err(LedgerError::OverReturn);
            }
            ret[si] = prior + it.quantity;
            let b = self.sale_items[si].batch_id;
            if matches!(self.batches[b].lifecycle, Lifecycle::Deleted { .. }) {
                return Err(LedgerError::UnknownBatch);
            }
            let held = bq[b];
            if held > i64::MAX - it.quantity {
                return Err(LedgerError::Overflow);
            }
            bq[b] = held + it.quantity;
            k += 1;
        }
        proof {
            lemma_no_return_error(v, sale_id, items@, items@.len() as int);
        }
        let return_id = self.returns.len();
        self.commit_return(items, Return { id: return_id, sale_id, refund_amount, return_type, reason });
        Ok(return_id)
    }

    /// Commits a validated return.
    fn commit_return(&mut self, items: &Vec<ReturnLine>, row: Return)
        requires
            old(self).wf(),
            row.id == old(self)@.returns.len(),
            row.sale_id < old(self)@.sales.len(),
            forall|k: int|
                0 <= k < items@.len() ==> #[trigger] old(self)@.return_line_error(
                    row.sale_id,
                    items@,
                    k,
                ) is None,
        ensures
            final(self).wf(),
            return_committed(old(self)@, final(self)@, items@, row),
    {
        let ghost v = self@;
        let return_id = row.id;
        let sale_id = row.sale_id;
        let ghost r = row;
        self.returns.push(row);
        let rbase = self.return_items.len();
        let ghost hbase = self.history@.len();
        proof {
            assert forall|i: int| 0 <= i < self@.returns.len() implies (#[trigger] self@.returns[i]).id
                == i && self@.returns[i].sale_id < self@.sales.len() by {
                if i < v.returns.len() {
                    assert(self@.returns[i] == v.returns[i]);
                }
            }
            assert forall|i: int| 0 <= i < self@.return_items.len() implies (
            #[trigger] self@.return_items[i]).return_id < self@.returns.len() by {
                assert(self@.return_items[i] == v.return_items[i]);
            }
            assert(self@.products == v.products);
            assert(self@.batches == v.batches);
            assert(self@.history == v.history);
            assert(self@.sales == v.sales);
            assert(self@.sale_items == v.sale_items);
            assert(self@.return_items == v.return_items);
            assert(self.wf());
        }
        let mut k: usize = 0;
        while k < items.len()
            invariant
                v.wf(),
                self.wf(),
                sale_id < v.sales.len(),
                return_id == v.returns.len(),
                rbase == v.return_items.len(),
                hbase == v.history.len(),
                k <= items@.len(),
                forall|k: int|
                    0 <= k < items@.len() ==> #[trigger] v.return_line_error(sale_id, items@, k)
                        is None,
                self@.products == v.products,
                self@.sales == v.sales,
                self@.sale_items == v.sale_items,
                self@.returns.len() == v.returns.len() + 1,
                self@.returns == v.returns.push(r),
                self@.return_items.len() == rbase + k,
                forall|j: int|
                    0 <= j < rbase ==> #[trigger] self@.return_items[j] == v.return_items[j],
                forall|j: int|
                    0 <= j < k ==> #[trigger] self@.return_items[rbase + j] == return_item_of(
                        items@[j],
                        rbase + j,
                        return_id,
                    ),
                forall|si: int|
                    0 <= si < v.sale_items.len() ==> #[trigger] returned(self@.return_items, si)
                        == returned(v.return_items, si) + returned_in(items@, k as int, si),
                self@.batches.len() == v.batches.len(),
                forall|b: int|
                    0 <= b < v.batches.len() ==> #[trigger] self@.batches[b] == with_q(
                        v.batches[b],
                        v.batches[b].quantity + v.restored_in(items@, k as int, b),
                    ),
                forall|b: int|
                    0 <= b < v.batches.len() ==> 0 <= #[trigger] v.restored_in(items@, k as int, b)
                        && v.batches[b].quantity + v.restored_in(items@, k as int, b) <= i64::MAX,
                self@.history.len() == hbase + k,
                forall|j: int| 0 <= j < hbase ==> #[trigger] self@.history[j] == v.history[j],
                forall|j: int|
                    0 <= j < k ==> #[trigger] self@.history[hbase + j] == return_entry(
                        v,
                        items@[j],
                    ),
            decreases items@.len() - k,
        {
            let it = items[k];
            let si = it.sale_item_id;
            assert(v.return_line_error(sale_id, items@, k as int) is None);
            let id = self.return_items.len();
            let ri = ReturnItem { id, return_id, sale_item_id: si, quantity: it.quantity };
            let ghost r0 = self@.return_items;
            self.push_return_item(ri);
            proof {
                assert forall|si2: int| 0 <= si2 < v.sale_items.len() implies #[trigger] returned(
                    self@.return_items,
                    si2,
                ) == returned(v.return_items, si2) + returned_in(items@, k as int + 1, si2) by {
                    lemma_returned_push(r0, ri, si2);
                }
            }
            let b = self.sale_items[si].batch_id;
            let q = self.batches[b].quantity;
            proof {
                assert(v.batch_of(it) == b);
                assert forall|b2: int| 0 <= b2 < v.batches.len() implies #[trigger] v.restored_in(
                    items@,
                    k as int + 1,
                    b2,
                ) == v.restored_in(items@, k as int, b2) + if b2 == b {
                    it.quantity as int
                } else {
                    0
                } by {}
                assert(self@.batches[b as int] == with_q(
                    v.batches[b as int],
                    v.batches[b as int].quantity + v.restored_in(items@, k as int, b as int),
                ));
                assert(v.restored_in(items@, k as int, b as int) >= 0);
            }
            let ghost mid = self@.batches;
            self.set_quantity(b, q + it.quantity, it.quantity, Reason::Return);
            proof {
                assert forall|b2: int| 0 <= b2 < v.batches.len() implies #[trigger] self@.batches[b2]
                    == with_q(
                    v.batches[b2],
                    v.batches[b2].quantity + v.restored_in(items@, k as int + 1, b2),
                ) by {
                    assert(mid[b2] == with_q(
                        v.batches[b2],
                        v.batches[b2].quantity + v.restored_in(items@, k as int, b2),
                    ));
                }
            }
            k += 1;
        }
        proof {
            assert(self@.return_items.subrange(0, rbase as int) =~= v.return_items);
            assert(self@.history.subrange(0, hbase as int) =~= v.history);
        }
    }

    /// The products whose stock in live batches is at most `threshold`,
    /// in id order, each with that stock.
    pub fn query_low_stock(&self, threshold: i64) -> (r: Vec<(usize, i64)>)
        requires
            self.wf(),
        ensures
            r@ == self@.low_stock(threshold, self@.products.len() as int),
    {
        let stock = self.snapshot();
        let ghost s = stock@;
        let n_p = self.products.len();
        let mut r: Vec<(usize, i64)> = Vec::new();
        let mut p: usize = 0;
        while p < n_p
            invariant
                s == self@.stock(),
                stock@ == s,
                n_p == self@.products.len(),
                p <= n_p,
                r@ == self@.low_stock(threshold, p as int),
            decreases n_p - p,
        {
            let mut acc: i64 = 0;
            let mut low = acc <= threshold;
            proof {
                lemma_available_upto_grows(s, p, 0, s.len() as int);
            }
            let mut i: usize = 0;
            while i < stock.len() && low
                invariant
                    i <= stock@.len(),
                    low ==> acc == available_upto(s, p, i as int) && 0 <= acc <= threshold,
                    !low ==> available_total(s, p) > threshold,
                    stock@ == s,
                decreases stock@.len() - i,
            {
                let slot = stock[i];
                if slot.product_id == p && slot.available > 0 {
                    if slot.available > threshold - acc {
                        low = false;
                        proof {
                            lemma_available_upto_grows(s, p, i as int + 1, s.len() as int);
                        }
                    } else {
                        acc = acc + slot.available;
                    }
                }
                i += 1;
            }
            if low {
                r.push((p, acc));
            }
            p += 1;
        }
        r
    }

    /// The registered products, by id.
    pub fn products(&self) -> (r: &Vec<Product>)
        ensures
            r@ == self@.products,
    {
        &self.products
    }

    /// All batches, retired ones included, by id.
    pub fn batches(&self) -> (r: &Vec<Batch>)
        ensures
            r@ == self@.batches,
    {
        &self.batches
    }

    /// The inventory history, oldest entry first.
    pub fn history(&self) -> (r: &Vec<HistoryEntry>)
        ensures
            r@ == self@.history,
    {
        &self.history
    }

    /// The committed sales, by id.
    pub fn sales(&self) -> (r: &Vec<Sale>)
        ensures
            r@ == self@.sales,
    {
        &self.sales
    }

    /// The committed sale items, by id.
    pub fn sale_items(&self) -> (r: &Vec<SaleItem>)
        ensures
            r@ == self@.sale_items,
    {
        &self.sale_items
    }

    /// The committed returns, by id.
    pub fn return_records(&self) -> (r: &Vec<Return>)
        ensures
            r@ == self@.returns,
    {
        &self.returns
    }

    /// The committed return items, by id.
    pub fn return_items(&self) -> (r: &Vec<ReturnItem>)
        ensures
            r@ == self@.return_items,
    {
        &self.return_items
    }
}

} // verus!
