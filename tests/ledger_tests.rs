use pos_ledger::ledger::Ledger;
use pos_ledger::model::{LedgerError, Lifecycle, Reason, ReturnLine, ReturnType, SaleLine};
use pos_ledger::plan::{plan_fefo, Allocation, StockSlot};
use pos_ledger::schema::{get_migrations, MigrationKind, INVENTORY_BATCHES_SQL, SAMPLE_DATA_SQL};

fn line(product_id: usize, quantity: i64) -> SaleLine {
    SaleLine { product_id, quantity }
}

fn quantity_of(l: &Ledger, b: usize) -> i64 {
    l.batches()[b].quantity
}

/// A product priced at 25.00 with two batches of 12, expiring 2024-12-31
/// and 2025-06-30.
fn two_batch_ledger() -> Ledger {
    let mut l = Ledger::new();
    let p = l.add_product(2500).unwrap();
    l.create_batch(p, 2000, 12, Some(20241231), Some("COKE-2024-01".to_string())).unwrap();
    l.create_batch(p, 2100, 12, Some(20250630), Some("COKE-2024-02".to_string())).unwrap();
    l
}

#[test]
fn sale_splits_across_batches_earliest_first() {
    let mut l = two_batch_ledger();
    let plan = l.plan(0, 15).unwrap();
    assert_eq!(
        plan,
        vec![
            Allocation { batch_id: 0, quantity: 12 },
            Allocation { batch_id: 1, quantity: 3 }
        ]
    );
    let sale = l.execute_sale(&vec![line(0, 15)], 100000).unwrap();
    assert_eq!(sale, 0);
    assert_eq!(quantity_of(&l, 0), 0);
    assert_eq!(quantity_of(&l, 1), 9);
    let items = l.sale_items();
    assert_eq!(items.len(), 2);
    assert_eq!((items[0].batch_id, items[0].quantity), (0, 12));
    assert_eq!((items[1].batch_id, items[1].quantity), (1, 3));
    assert_eq!(l.sales()[0].total, 15 * 2500);
}

#[test]
fn sale_beyond_single_batch_fails_with_shortfall() {
    let mut l = Ledger::new();
    let p = l.add_product(1000).unwrap();
    l.create_batch(p, 700, 3, Some(20250331), None).unwrap();
    let r = l.execute_sale(&vec![line(p, 5)], 100000);
    assert_eq!(r, Err(LedgerError::InsufficientStock { product_id: p, shortfall: 2 }));
    assert_eq!(quantity_of(&l, 0), 3);
    assert_eq!(l.sales().len(), 0);
    assert_eq!(l.history().len(), 1);
}

#[test]
fn change_is_cash_less_total() {
    let mut l = Ledger::new();
    let coke = l.add_product(2500).unwrap();
    let tuna = l.add_product(3500).unwrap();
    l.create_batch(coke, 2000, 12, Some(20241231), None).unwrap();
    l.create_batch(tuna, 2800, 18, Some(20250831), None).unwrap();
    let sale = l.execute_sale(&vec![line(coke, 2), line(tuna, 1)], 10000).unwrap();
    let s = l.sales()[sale];
    assert_eq!(s.total, 8500);
    assert_eq!(s.cash_received, 10000);
    assert_eq!(s.change, 1500);
    let sum: i64 = l.sale_items().iter().map(|i| i.quantity * i.price_at_sale).sum();
    assert_eq!(sum, 8500);
}

#[test]
fn insufficient_cash_is_rejected() {
    let mut l = two_batch_ledger();
    let r = l.execute_sale(&vec![line(0, 4)], 9999);
    assert_eq!(r, Err(LedgerError::InsufficientCash));
    assert_eq!(quantity_of(&l, 0), 12);
    assert_eq!(l.sales().len(), 0);
    let exact = l.execute_sale(&vec![line(0, 4)], 10000).unwrap();
    assert_eq!(l.sales()[exact].change, 0);
}

#[test]
fn return_restores_batch_and_blocks_over_return() {
    let mut l = two_batch_ledger();
    let sale = l.execute_sale(&vec![line(0, 2)], 5000).unwrap();
    assert_eq!(quantity_of(&l, 0), 10);
    let ret = l
        .execute_return(sale, &vec![ReturnLine { sale_item_id: 0, quantity: 2 }], ReturnType::Refund, 5000, "damaged".to_string())
        .unwrap();
    assert_eq!(ret, 0);
    assert_eq!(l.return_records()[0].reason, "damaged");
    assert_eq!(l.return_records()[0].refund_amount, 5000);
    assert_eq!(l.history().last().unwrap().reason, Reason::Return);
    assert_eq!(quantity_of(&l, 0), 12);
    let again = l.execute_return(
        sale,
        &vec![ReturnLine { sale_item_id: 0, quantity: 1 }],
        ReturnType::StoreCredit,
        0,
        "changed mind".to_string(),
    );
    assert_eq!(again, Err(LedgerError::OverReturn));
    assert_eq!(quantity_of(&l, 0), 12);
    assert_eq!(l.return_records().len(), 1);
    assert_eq!(l.return_items().len(), 1);
}

#[test]
fn return_lines_count_against_each_other() {
    let mut l = two_batch_ledger();
    let sale = l.execute_sale(&vec![line(0, 3)], 10000).unwrap();
    let r = l.execute_return(
        sale,
        &vec![
            ReturnLine { sale_item_id: 0, quantity: 2 },
            ReturnLine { sale_item_id: 0, quantity: 2 },
        ],
        ReturnType::Exchange,
        0,
        "wrong size".to_string(),
    );
    assert_eq!(r, Err(LedgerError::OverReturn));
    assert_eq!(quantity_of(&l, 0), 9);
    assert_eq!(l.return_items().len(), 0);
}

#[test]
fn second_sale_sees_what_first_left() {
    let mut l = Ledger::new();
    let p = l.add_product(100).unwrap();
    l.create_batch(p, 50, 12, Some(20250101), None).unwrap();
    assert!(l.execute_sale(&vec![line(p, 10)], 1000).is_ok());
    let r = l.execute_sale(&vec![line(p, 10)], 1000);
    assert_eq!(r, Err(LedgerError::InsufficientStock { product_id: p, shortfall: 8 }));
    assert_eq!(quantity_of(&l, 0), 2);
}

#[test]
fn second_sale_spills_into_another_batch() {
    let mut l = Ledger::new();
    let p = l.add_product(100).unwrap();
    l.create_batch(p, 50, 12, Some(20250101), None).unwrap();
    l.create_batch(p, 50, 20, Some(20250201), None).unwrap();
    l.execute_sale(&vec![line(p, 10)], 1000).unwrap();
    l.execute_sale(&vec![line(p, 10)], 1000).unwrap();
    assert_eq!(quantity_of(&l, 0), 0);
    assert_eq!(quantity_of(&l, 1), 12);
}

#[test]
fn failed_line_leaves_no_trace_of_earlier_lines() {
    let mut l = Ledger::new();
    let a = l.add_product(100).unwrap();
    let b = l.add_product(200).unwrap();
    l.create_batch(a, 50, 10, None, None).unwrap();
    l.create_batch(b, 50, 1, None, None).unwrap();
    let r = l.execute_sale(&vec![line(a, 4), line(b, 5), line(a, 1)], 100000);
    assert_eq!(r, Err(LedgerError::InsufficientStock { product_id: b, shortfall: 4 }));
    assert_eq!(quantity_of(&l, 0), 10);
    assert_eq!(quantity_of(&l, 1), 1);
    assert_eq!(l.sale_items().len(), 0);
    assert_eq!(l.sales().len(), 0);
    assert_eq!(l.history().len(), 2);
    let bad = l.execute_sale(&vec![line(a, 4), line(a, 0), line(a, 1)], 100000);
    assert_eq!(bad, Err(LedgerError::InvalidLineItem));
    let unknown = l.execute_sale(&vec![line(a, 4), line(9, 1)], 100000);
    assert_eq!(unknown, Err(LedgerError::UnknownProduct));
    assert_eq!(l.sale_items().len(), 0);
}

#[test]
fn lines_of_one_product_share_its_stock() {
    let mut l = Ledger::new();
    let a = l.add_product(100).unwrap();
    l.create_batch(a, 50, 5, None, None).unwrap();
    let r = l.execute_sale(&vec![line(a, 3), line(a, 3)], 100000);
    assert_eq!(r, Err(LedgerError::InsufficientStock { product_id: a, shortfall: 1 }));
    let ok = l.execute_sale(&vec![line(a, 3), line(a, 2)], 100000);
    assert!(ok.is_ok());
    assert_eq!(quantity_of(&l, 0), 0);
    assert_eq!(l.sales()[0].total, 500);
}

#[test]
fn earlier_expiry_covers_request_alone() {
    let stock = vec![
        StockSlot { product_id: 0, available: 5, expiration: Some(20250630) },
        StockSlot { product_id: 0, available: 5, expiration: Some(20241231) },
        StockSlot { product_id: 1, available: 9, expiration: Some(20200101) },
    ];
    let plan = plan_fefo(&stock, 0, 4).unwrap();
    assert_eq!(plan, vec![Allocation { batch_id: 1, quantity: 4 }]);
}

#[test]
fn undated_stock_goes_last_and_ties_keep_batch_order() {
    let stock = vec![
        StockSlot { product_id: 0, available: 4, expiration: None },
        StockSlot { product_id: 0, available: 3, expiration: Some(20250101) },
        StockSlot { product_id: 0, available: 2, expiration: Some(20250101) },
        StockSlot { product_id: 0, available: 0, expiration: Some(20200101) },
    ];
    let plan = plan_fefo(&stock, 0, 7).unwrap();
    assert_eq!(
        plan,
        vec![
            Allocation { batch_id: 1, quantity: 3 },
            Allocation { batch_id: 2, quantity: 2 },
            Allocation { batch_id: 0, quantity: 2 }
        ]
    );
    assert_eq!(plan_fefo(&stock, 0, 10), Err(1));
    assert_eq!(plan_fefo(&stock, 0, 0), Ok(vec![]));
}

#[test]
fn deleted_batches_are_never_planned() {
    let mut l = two_batch_ledger();
    assert_eq!(l.soft_delete(0, false, 1700000000), Err(LedgerError::NonZeroQuantity));
    l.soft_delete(0, true, 1700000000).unwrap();
    assert_eq!(l.batches()[0].lifecycle, Lifecycle::Deleted { at: 1700000000 });
    assert_eq!(l.plan(0, 3).unwrap(), vec![Allocation { batch_id: 1, quantity: 3 }]);
    assert_eq!(
        l.plan(0, 13),
        Err(LedgerError::InsufficientStock { product_id: 0, shortfall: 1 })
    );
    assert_eq!(l.soft_delete(0, true, 1700000000), Err(LedgerError::UnknownBatch));
    assert_eq!(l.deplete(0, 1, Reason::Adjustment), Err(LedgerError::UnknownBatch));
    assert_eq!(l.restore(0, 1, Reason::Correction), Err(LedgerError::UnknownBatch));
}

#[test]
fn history_reconciles_with_quantity() {
    let mut l = two_batch_ledger();
    let sale = l.execute_sale(&vec![line(0, 15)], 100000).unwrap();
    l.execute_return(sale, &vec![ReturnLine { sale_item_id: 1, quantity: 2 }], ReturnType::Refund, 5000, "damaged".to_string())
        .unwrap();
    l.deplete(1, 1, Reason::Adjustment).unwrap();
    l.restore(1, 4, Reason::Correction).unwrap();
    for b in l.batches() {
        assert!(b.quantity >= 0);
        let mut restocked = 0;
        let mut sold = 0;
        for e in l.history().iter().filter(|e| e.batch_id == b.id) {
            match e.reason {
                Reason::Sale => sold += e.change.abs(),
                Reason::Receipt => {}
                _ => restocked += e.change,
            }
        }
        assert_eq!(b.quantity, b.received + restocked - sold);
    }
    assert_eq!(quantity_of(&l, 1), 9 + 2 - 1 + 4);
}

#[test]
fn batch_creation_errors() {
    let mut l = Ledger::new();
    assert_eq!(l.add_product(0), Err(LedgerError::InvalidPrice));
    let p = l.add_product(100).unwrap();
    assert_eq!(l.create_batch(p, 10, -1, None, None), Err(LedgerError::InvalidQuantity));
    assert_eq!(l.create_batch(p, -10, 1, None, None), Err(LedgerError::InvalidCostPrice));
    assert_eq!(l.create_batch(p + 1, 10, 1, None, None), Err(LedgerError::UnknownProduct));
    assert_eq!(l.create_batch(p, 10, 0, None, None), Ok(0));
    assert_eq!(l.history()[0].reason, Reason::Receipt);
}

#[test]
fn deplete_and_restore_errors() {
    let mut l = two_batch_ledger();
    assert_eq!(l.deplete(5, 1, Reason::Sale), Err(LedgerError::UnknownBatch));
    assert_eq!(l.deplete(0, -1, Reason::Sale), Err(LedgerError::InvalidQuantity));
    assert_eq!(l.deplete(0, 1, Reason::Receipt), Err(LedgerError::InvalidReason));
    assert_eq!(
        l.deplete(0, 13, Reason::Sale),
        Err(LedgerError::InsufficientStock { product_id: 0, shortfall: 1 })
    );
    assert_eq!(l.restore(0, 1, Reason::Sale), Err(LedgerError::InvalidReason));
    assert_eq!(l.restore(0, i64::MAX, Reason::Correction), Err(LedgerError::Overflow));
    assert_eq!(quantity_of(&l, 0), 12);
    l.deplete(0, 12, Reason::Sale).unwrap();
    assert_eq!(quantity_of(&l, 0), 0);
    assert_eq!(l.history().last().unwrap().change, -12);
}

#[test]
fn return_errors() {
    let mut l = two_batch_ledger();
    let sale = l.execute_sale(&vec![line(0, 2)], 5000).unwrap();
    let one = |q: i64| vec![ReturnLine { sale_item_id: 0, quantity: q }];
    assert_eq!(l.execute_return(7, &one(1), ReturnType::Refund, 0, String::new()), Err(LedgerError::UnknownSale));
    assert_eq!(
        l.execute_return(sale, &vec![ReturnLine { sale_item_id: 3, quantity: 1 }], ReturnType::Refund, 0, String::new()),
        Err(LedgerError::UnknownSaleItem)
    );
    assert_eq!(l.execute_return(sale, &one(0), ReturnType::Refund, 0, String::new()), Err(LedgerError::InvalidQuantity));
    l.deplete(0, 10, Reason::Adjustment).unwrap();
    l.soft_delete(0, false, 1700000000).unwrap();
    assert_eq!(l.execute_return(sale, &one(1), ReturnType::Refund, 0, String::new()), Err(LedgerError::UnknownBatch));
}

#[test]
fn low_stock_lists_products_at_or_under_threshold() {
    let mut l = Ledger::new();
    let a = l.add_product(100).unwrap();
    let b = l.add_product(100).unwrap();
    let c = l.add_product(100).unwrap();
    l.create_batch(a, 10, 3, None, None).unwrap();
    l.create_batch(a, 10, 2, None, None).unwrap();
    l.create_batch(b, 10, 8, None, None).unwrap();
    l.create_batch(c, 10, 9, None, None).unwrap();
    l.soft_delete(3, true, 1700000000).unwrap();
    assert_eq!(l.query_low_stock(5), vec![(a, 5), (c, 0)]);
    assert_eq!(l.query_low_stock(-1), vec![]);
}

#[test]
fn migrations_run_in_version_order() {
    let m = get_migrations();
    assert_eq!(m.len(), 12);
    for (i, step) in m.iter().enumerate() {
        assert_eq!(step.version, i as i64 + 1);
        assert_eq!(step.kind, MigrationKind::Up);
    }
    assert_eq!(m[3].sql, INVENTORY_BATCHES_SQL);
    assert_eq!(m[3].description, "Creates inventory_batches table");
    assert!(m[3].sql.contains("CREATE INDEX IF NOT EXISTS idx_inventory_batches_expiration"));
    for table in [
        "products",
        "inventory_batches",
        "sales",
        "sale_items",
        "inventory_history",
        "returns",
        "return_items",
        "product_history",
    ] {
        let created = m.iter().any(|s| {
            s.sql.contains(&format!("CREATE TABLE IF NOT EXISTS {} (", table))
                || s.sql.contains(&format!("CREATE TABLE {} (", table))
        });
        assert!(created, "{} is not created", table);
    }
}

#[test]
fn sample_data_seeds_consistent_sales() {
    let m = get_migrations();
    assert_eq!(m[7].sql, SAMPLE_DATA_SQL);
    assert!(m[7].sql.contains("INTO inventory_batches"));
    let sql = m[7].sql;
    assert!(sql.contains("(85.00, 100.00, 15.00)"));
    assert!(sql.contains("(120.00, 150.00, 30.00)"));
    assert!(sql.contains("(45.00, 50.00, 5.00)"));
    let sales: [(f64, f64, f64); 3] = [(85.0, 100.0, 15.0), (120.0, 150.0, 30.0), (45.0, 50.0, 5.0)];
    for (total, cash, change) in sales {
        assert_eq!(change, cash - total);
        assert!(cash >= total);
    }
    // (sale_id, batch_id, quantity, price_at_sale) of the seeded sale items
    let rows = sql.split("INTO sale_items").nth(1).unwrap();
    let mut sums = [0.0f64; 3];
    for row in rows.lines().filter(|l| l.trim_start().starts_with('(') && !l.contains("sale_id")) {
        let inner = row.trim_start().trim_start_matches('(');
        let inner = &inner[..inner.find(')').unwrap()];
        let fields: Vec<&str> = inner.split(',').map(|f| f.trim()).collect();
        let sale: usize = fields[0].parse().unwrap();
        let quantity: f64 = fields[2].parse().unwrap();
        let price: f64 = fields[3].parse().unwrap();
        sums[sale - 1] += quantity * price;
    }
    assert_eq!(sums, [85.0, 120.0, 45.0]);
}
