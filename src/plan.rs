//! The allocation planner: which batches a requested quantity is drawn from,
//! first-expired-first-out.
use vstd::prelude::*;

verus! {

/// What the planner sees of one batch. The batch's id is its index in the
/// snapshot. A retired batch is seen with nothing available.
#[derive(Clone, Copy, Debug, PartialEq, Eq)]
pub struct StockSlot {
    pub product_id: usize,
    pub available: i64,
    /// Expiration as a day key whose numeric order is calendar order
    /// (for instance `20241231`); `None` for stock that does not expire.
    pub expiration: Option<u32>,
}

/// One step of a plan: draw `quantity` units from batch `batch_id`.
#[derive(Clone, Copy, Debug, PartialEq, Eq)]
pub struct Allocation {
    pub batch_id: usize,
    pub quantity: i64,
}

/// Batch `i` may be drawn from for product `p`.
pub open spec fn eligible(s: Seq<StockSlot>, p: usize, i: int) -> bool {
    0 <= i < s.len() && s[i].product_id == p && s[i].available > 0
}

/// What batch `i` can give to product `p`.
pub open spec fn avail_of(s: Seq<StockSlot>, p: usize, i: int) -> int {
    if eligible(s, p, i) {
        s[i].available as int
    } else {
        0
    }
}

/// The FEFO order: earlier expiration first, stock without expiration last,
/// ties broken by batch order.
pub open spec fn drawn_before(s: Seq<StockSlot>, i: int, j: int) -> bool {
    match (s[i].expiration, s[j].expiration) {
        (Some(a), Some(b)) => a < b || (a == b && i < j),
        (Some(_), None) => true,
        (None, Some(_)) => false,
        (None, None) => i < j,
    }
}

/// How much a plan takes from batch `i`.
pub open spec fn taken(a: Seq<Allocation>, i: int) -> int
    decreases a.len(),
{
    if a.len() == 0 {
        0
    } else {
        taken(a.drop_last(), i) + if a.last().batch_id == i {
            a.last().quantity as int
        } else {
            0
        }
    }
}

/// How much a plan takes in all.
pub open spec fn allocated(a: Seq<Allocation>) -> int
    decreases a.len(),
{
    if a.len() == 0 {
        0
    } else {
        allocated(a.drop_last()) + a.last().quantity
    }
}

pub open spec fn available_upto(s: Seq<StockSlot>, p: usize, n: int) -> int
    decreases n,
{
    if n <= 0 {
        0
    } else {
        available_upto(s, p, n - 1) + avail_of(s, p, n - 1)
    }
}

/// All the stock of product `p` that the snapshot offers.
pub open spec fn available_total(s: Seq<StockSlot>, p: usize) -> int {
    available_upto(s, p, s.len() as int)
}

/// `a` is the FEFO plan for `req` units of product `p` (with `req > 0`):
/// it draws from eligible batches in FEFO order, empties every batch it
/// draws from but the last, leaves no eligible batch that comes earlier
/// untouched, and takes exactly `req` units.
pub open spec fn is_fefo_plan(s: Seq<StockSlot>, p: usize, req: int, a: Seq<Allocation>) -> bool {
    &&& a.len() > 0
    &&& allocated(a) == req
    &&& forall|k: int|
        0 <= k < a.len() ==> eligible(s, p, #[trigger] a[k].batch_id as int) && 0 < a[k].quantity
            <= s[a[k].batch_id as int].available
    &&& forall|k: int|
        0 <= k < a.len() - 1 ==> #[trigger] a[k].quantity == s[a[k].batch_id as int].available
    &&& forall|k1: int, k2: int|
        0 <= k1 < k2 < a.len() ==> drawn_before(
            s,
            #[trigger] a[k1].batch_id as int,
            #[trigger] a[k2].batch_id as int,
        )
    &&& forall|i: int|
        eligible(s, p, i) && drawn_before(s, i, a.last().batch_id as int) ==> #[trigger] taken(a, i)
            == s[i].available
}

pub open spec fn taken_upto(a: Seq<Allocation>, n: int) -> int
    decreases n,
{
    if n <= 0 {
        0
    } else {
        taken_upto(a, n - 1) + taken(a, n - 1)
    }
}

proof fn lemma_taken_upto_push(a: Seq<Allocation>, e: Allocation, n: int)
    requires
        n >= 0,
    ensures
        taken_upto(a.push(e), n) == taken_upto(a, n) + if e.batch_id < n {
            e.quantity as int
        } else {
            0
        },
    decreases n,
{
    assert(a.push(e).drop_last() =~= a);
    if n > 0 {
        lemma_taken_upto_push(a, e, n - 1);
    }
}

proof fn lemma_allocated_is_taken_sum(a: Seq<Allocation>, n: int)
    requires
        n >= 0,
        forall|k: int| 0 <= k < a.len() ==> #[trigger] a[k].batch_id < n,
    ensures
        allocated(a) == taken_upto(a, n),
    decreases a.len(),
{
    if a.len() == 0 {
        lemma_taken_upto_zero(a, n);
    } else {
        let b = a.drop_last();
        assert(b.push(a.last()) =~= a);
        lemma_allocated_is_taken_sum(b, n);
        lemma_taken_upto_push(b, a.last(), n);
    }
}

proof fn lemma_taken_upto_zero(a: Seq<Allocation>, n: int)
    requires
        a.len() == 0,
    ensures
        taken_upto(a, n) == 0,
    decreases n,
{
    if n > 0 {
        lemma_taken_upto_zero(a, n - 1);
    }
}

proof fn lemma_taken_upto_bound(a: Seq<Allocation>, s: Seq<StockSlot>, p: usize, n: int)
    requires
        forall|i: int| 0 <= i < n ==> #[trigger] taken(a, i) <= avail_of(s, p, i),
    ensures
        taken_upto(a, n) <= available_upto(s, p, n),
        (forall|i: int| 0 <= i < n ==> #[trigger] taken(a, i) == avail_of(s, p, i)) ==> taken_upto(
            a,
            n,
        ) == available_upto(s, p, n),
    decreases n,
{
    if n > 0 {
        lemma_taken_upto_bound(a, s, p, n - 1);
    }
}

/// `taken` only counts entries that name the batch.
pub(crate) proof fn lemma_taken_push(a: Seq<Allocation>, e: Allocation, i: int)
    ensures
        taken(a.push(e), i) == taken(a, i) + if e.batch_id == i {
            e.quantity as int
        } else {
            0
        },
        allocated(a.push(e)) == allocated(a) + e.quantity,
{
    assert(a.push(e).drop_last() =~= a);
}

proof fn lemma_taken_names_entry(a: Seq<Allocation>, i: int) -> (k: int)
    requires
        taken(a, i) != 0,
    ensures
        0 <= k < a.len(),
        a[k].batch_id == i,
    decreases a.len(),
{
    if a.last().batch_id == i {
        (a.len() - 1) as int
    } else {
        let k = lemma_taken_names_entry(a.drop_last(), i);
        k
    }
}

proof fn lemma_taken_pair(a: Seq<Allocation>, i1: int, i2: int)
    requires
        i1 != i2,
        forall|k: int| 0 <= k < a.len() ==> #[trigger] a[k].quantity > 0,
    ensures
        taken(a, i1) >= 0,
        taken(a, i2) >= 0,
        taken(a, i1) + taken(a, i2) <= allocated(a),
    decreases a.len(),
{
    if a.len() > 0 {
        let b = a.drop_last();
        assert forall|k: int| 0 <= k < b.len() implies #[trigger] b[k].quantity > 0 by {
            assert(b[k] == a[k]);
        }
        lemma_taken_pair(b, i1, i2);
    }
}

/// Of two eligible batches where the first expires strictly earlier, a FEFO
/// plan for a quantity that the first could cover alone never draws from
/// the second.
pub proof fn lemma_fefo_prefers_earlier(
    s: Seq<StockSlot>,
    p: usize,
    req: int,
    a: Seq<Allocation>,
    i1: int,
    i2: int,
)
    requires
        is_fefo_plan(s, p, req, a),
        eligible(s, p, i1),
        eligible(s, p, i2),
        s[i1].expiration is Some,
        s[i2].expiration is Some,
        s[i1].expiration->0 < s[i2].expiration->0,
        req <= s[i1].available,
    ensures
        taken(a, i2) == 0,
{
    if taken(a, i2) != 0 {
        let k = lemma_taken_names_entry(a, i2);
        let last = a.last().batch_id as int;
        if k < a.len() - 1 {
            assert(drawn_before(s, a[k].batch_id as int, a[a.len() - 1].batch_id as int));
        }
        assert(drawn_before(s, i1, last));
        assert(taken(a, i1) == s[i1].available);
        lemma_taken_pair(a, i1, i2);
    }
}

/// The slot with `x` units fewer available.
pub open spec fn drawn_down(s: StockSlot, x: int) -> StockSlot {
    StockSlot { available: (s.available - x) as i64, ..s }
}

/// In a FEFO plan each batch is named at most once, so what the plan takes
/// from a batch is never more than it can give.
proof fn lemma_plan_takes_within(s: Seq<StockSlot>, p: usize, a: Seq<Allocation>, i: int)
    requires
        forall|k: int|
            0 <= k < a.len() ==> eligible(s, p, #[trigger] a[k].batch_id as int) && 0 < a[k].quantity
                <= s[a[k].batch_id as int].available,
        forall|k1: int, k2: int|
            0 <= k1 < k2 < a.len() ==> drawn_before(
                s,
                #[trigger] a[k1].batch_id as int,
                #[trigger] a[k2].batch_id as int,
            ),
    ensures
        0 <= taken(a, i) <= avail_of(s, p, i),
    decreases a.len(),
{
    if a.len() > 0 {
        let b = a.drop_last();
        assert forall|k: int| 0 <= k < b.len() implies eligible(
            s,
            p,
            #[trigger] b[k].batch_id as int,
        ) && 0 < b[k].quantity <= s[b[k].batch_id as int].available by {
            assert(b[k] == a[k]);
        }
        assert forall|k1: int, k2: int| 0 <= k1 < k2 < b.len() implies drawn_before(
            s,
            #[trigger] b[k1].batch_id as int,
            #[trigger] b[k2].batch_id as int,
        ) by {
            assert(b[k1] == a[k1] && b[k2] == a[k2]);
        }
        lemma_plan_takes_within(s, p, b, i);
        if a.last().batch_id == i && taken(b, i) != 0 {
            let k = lemma_taken_names_entry(b, i);
            assert(b[k] == a[k]);
            assert(drawn_before(s, a[k].batch_id as int, a[a.len() - 1].batch_id as int));
        }
    }
}

/// What a stock snapshot offers of `p`, after a plan `a` for `p` was taken
/// out of it, slot by slot.
proof fn lemma_available_after(
    s: Seq<StockSlot>,
    t: Seq<StockSlot>,
    p: usize,
    a: Seq<Allocation>,
    q: usize,
    n: int,
)
    requires
        0 <= n <= s.len(),
        t.len() == s.len(),
        forall|i: int|
            0 <= i < s.len() ==> #[trigger] t[i] == drawn_down(s[i], taken(a, i)),
        forall|i: int| 0 <= i < s.len() ==> 0 <= #[trigger] taken(a, i) <= avail_of(s, p, i),
    ensures
        available_upto(t, q, n) == available_upto(s, q, n) - (if q == p {
            taken_upto(a, n)
        } else {
            0
        }),
    decreases n,
{
    if n > 0 {
        lemma_available_after(s, t, p, a, q, n - 1);
        assert(taken(a, n - 1) <= avail_of(s, p, n - 1));
    }
}

/// Takes a FEFO plan out of a stock snapshot: each batch loses what the plan
/// takes from it, and the stock of the planned product falls by the
/// requested quantity.
pub fn apply_plan(
    stock: &mut Vec<StockSlot>,
    product_id: usize,
    requested: i64,
    a: &Vec<Allocation>,
)
    requires
        is_fefo_plan(old(stock)@, product_id, requested as int, a@),
    ensures
        final(stock)@.len() == old(stock)@.len(),
        forall|i: int|
            0 <= i < old(stock)@.len() ==> #[trigger] final(stock)@[i] == drawn_down(old(stock)@[i], taken(a@, i)),
        forall|i: int|
            0 <= i < old(stock)@.len() ==> 0 <= #[trigger] taken(a@, i) <= avail_of(
                old(stock)@,
                product_id,
                i,
            ),
        forall|q: usize|
            #[trigger] available_total(final(stock)@, q) == available_total(old(stock)@, q)
                - (if q == product_id {
                requested as int
            } else {
                0
            }),
{
    let ghost s = stock@;
    let ghost p = product_id;
    let mut j: usize = 0;
    while j < a.len()
        invariant
            is_fefo_plan(s, p, requested as int, a@),
            j <= a.len(),
            stock@.len() == s.len(),
            forall|i: int|
                0 <= i < s.len() ==> #[trigger] stock@[i] == drawn_down(s[i], taken(a@.take(j as int), i)),
        decreases a.len() - j,
    {
        let e = a[j];
        let ghost pre = a@.take(j as int);
        proof {
            assert(a@.take(j as int + 1) =~= pre.push(e));
            if taken(pre, e.batch_id as int) != 0 {
                let k = lemma_taken_names_entry(pre, e.batch_id as int);
                assert(pre[k] == a@[k]);
            }
            assert forall|i: int| 0 <= i < s.len() implies #[trigger] taken(
                a@.take(j as int + 1),
                i,
            ) == taken(pre, i) + if e.batch_id == i {
                e.quantity as int
            } else {
                0
            } by {
                lemma_taken_push(pre, e, i);
            }
        }
        let b = e.batch_id;
        let cur = stock[b].available;
        stock[b].available = cur - e.quantity;
        j += 1;
    }

    proof {
        assert(a@.take(a@.len() as int) =~= a@);
        assert forall|i: int| 0 <= i < s.len() implies 0 <= #[trigger] taken(a@, i) <= avail_of(
            s,
            p,
            i,
        ) by {
            lemma_plan_takes_within(s, p, a@, i);
        }
        lemma_allocated_is_taken_sum(a@, s.len() as int);
        assert forall|q: usize| #[trigger]
            available_total(stock@, q) == available_total(s, q) - if q == p {
                requested as int
            } else {
                0
            } by {
            lemma_available_after(s, stock@, p, a@, q, s.len() as int);
        }
    }
}

fn fefo_before(stock: &Vec<StockSlot>, i: usize, j: usize) -> (r: bool)
    requires
        i < stock.len(),
        j < stock.len(),
    ensures
        r == drawn_before(stock@, i as int, j as int),
{
    match (stock[i].expiration, stock[j].expiration) {
        (Some(a), Some(b)) => a < b || (a == b && i < j),
        (Some(_), None) => true,
        (None, Some(_)) => false,
        (None, None) => i < j,
    }
}

/// Plans `requested` units of product `product_id` over a snapshot of the
/// stock, without changing it. A request of zero or less needs no batch.
/// Where the stock falls short the error is the shortfall.
pub fn plan_fefo(stock: &Vec<StockSlot>, product_id: usize, requested: i64) -> (r: Result<
    Vec<Allocation>,
    i64,
>)
    ensures
        requested <= 0 ==> (r matches Ok(a) && a@.len() == 0),
        requested > 0 ==> match r {
            Ok(a) => available_total(stock@, product_id) >= requested && is_fefo_plan(
                stock@,
                product_id,
                requested as int,
                a@,
            ),
            Err(shortfall) => available_total(stock@, product_id) < requested && shortfall
                == requested - available_total(stock@, product_id),
        },
{
    let ghost s = stock@;
    let ghost p = product_id;
    let mut plan: Vec<Allocation> = Vec::new();
    if requested <= 0 {
        return Ok(plan);
    }
    let n = stock.len();
    let mut work: Vec<i64> = Vec::new();
    let mut i: usize = 0;
    while i < n
        invariant
            i <= n,
            n == stock.len(),
            work@.len() == i,
            forall|k: int| 0 <= k < i ==> #[trigger] work@[k] == stock@[k].available,
        decreases n - i,
    {
        work.push(stock[i].available);
        i += 1;
    }
    let mut remaining: i64 = requested;
    loop
        invariant
            s == stock@,
            p == product_id,
            n == stock.len(),
            work@.len() == n,
            0 < remaining <= requested,
            allocated(plan@) == requested - remaining,
            forall|k: int|
                0 <= k < plan@.len() ==> eligible(s, p, #[trigger] plan@[k].batch_id as int)
                    && plan@[k].quantity == s[plan@[k].batch_id as int].available,
            forall|k1: int, k2: int|
                0 <= k1 < k2 < plan@.len() ==> drawn_before(
                    s,
                    #[trigger] plan@[k1].batch_id as int,
                    #[trigger] plan@[k2].batch_id as int,
                ),
            forall|i: int| 0 <= i < n ==> #[trigger] work@[i] == s[i].available - taken(plan@, i),
            forall|i: int|
                0 <= i < n ==> #[trigger] taken(plan@, i) == 0 || (eligible(s, p, i) && taken(
                    plan@,
                    i,
                ) == s[i].available),
            forall|i: int|
                0 <= i < n && s[i].product_id == p && #[trigger] work@[i] > 0 && plan@.len() > 0
                    ==> drawn_before(s, plan@.last().batch_id as int, i),
        decreases remaining,
    {
        let mut best: usize = n;
        let mut i: usize = 0;
        while i < n
            invariant
                s == stock@,
                p == product_id,
                n == stock.len(),
                work@.len() == n,
                i <= n,
                best == n || (best < i && s[best as int].product_id == p && work@[best as int] > 0),
                best == n ==> forall|k: int|
                    0 <= k < i ==> !(s[k].product_id == p && #[trigger] work@[k] > 0),
                best < n ==> forall|k: int|
                    0 <= k < i && s[k].product_id == p && #[trigger] work@[k] > 0 ==> k == best
                        || drawn_before(s, best as int, k),
            decreases n - i,
        {
            if stock[i].product_id == product_id && work[i] > 0 {
                if best == n || fefo_before(stock, i, best) {
                    best = i;
                }
            }
            i += 1;
        }
        if best == n {
            proof {
                assert forall|k: int| 0 <= k < n implies #[trigger] taken(plan@, k) == avail_of(
                    s,
                    p,
                    k,
                ) by {
                    assert(work@[k] == s[k].available - taken(plan@, k));
                }
                lemma_allocated_is_taken_sum(plan@, n as int);
                lemma_taken_upto_bound(plan@, s, p, n as int);
            }
            return Err(remaining);
        }
        let j = best;
        let w = work[j];
        let ghost old_plan = plan@;
        if w >= remaining {
            plan.push(Allocation { batch_id: j, quantity: remaining });
            proof {
                let e = Allocation { batch_id: j, quantity: remaining };
                assert(plan@ == old_plan.push(e));
                lemma_taken_push(old_plan, e, 0);
                assert forall|i: int| 0 <= i < n implies #[trigger] taken(plan@, i) <= avail_of(
                    s,
                    p,
                    i,
                ) by {
                    lemma_taken_push(old_plan, e, i);
                }
                assert forall|i: int|
                    eligible(s, p, i) && drawn_before(s, i, j as int) implies #[trigger] taken(
                    plan@,
                    i,
                ) == s[i].available by {
                    lemma_taken_push(old_plan, e, i);
                    assert(work@[i] == s[i].available - taken(old_plan, i));
                }
                assert forall|k1: int, k2: int| 0 <= k1 < k2 < plan@.len() implies drawn_before(
                    s,
                    #[trigger] plan@[k1].batch_id as int,
                    #[trigger] plan@[k2].batch_id as int,
                ) by {
                    if k2 == old_plan.len() && k1 < old_plan.len() - 1 {
                        assert(drawn_before(
                            s,
                            old_plan[k1].batch_id as int,
                            old_plan.last().batch_id as int,
                        ));
                    }
                }
                assert forall|k: int| 0 <= k < plan@.len() implies #[trigger] eligible(
                    s,
                    p,
                    plan@[k].batch_id as int,
                ) && 0 < plan@[k].quantity <= s[plan@[k].batch_id as int].available by {}
                assert(plan@.len() > 0);
                assert(is_fefo_plan(s, p, requested as int, plan@));
                lemma_allocated_is_taken_sum(plan@, n as int);
                lemma_taken_upto_bound(plan@, s, p, n as int);
            }
            return Ok(plan);
        }
        plan.push(Allocation { batch_id: j, quantity: w });
        work[j] = 0;
        remaining = remaining - w;
        proof {
            let e = Allocation { batch_id: j, quantity: w };
            assert(plan@ == old_plan.push(e));
            lemma_taken_push(old_plan, e, 0);
            assert forall|i: int| 0 <= i < n implies #[trigger] work@[i] == s[i].available - taken(
                plan@,
                i,
            ) by {
                lemma_taken_push(old_plan, e, i);
            }
            assert forall|i: int| 0 <= i < n implies #[trigger] taken(plan@, i) == 0 || (eligible(
                s,
                p,
                i,
            ) && taken(plan@, i) == s[i].available) by {
                lemma_taken_push(old_plan, e, i);
            }
            assert forall|k1: int, k2: int| 0 <= k1 < k2 < plan@.len() implies drawn_before(
                s,
                #[trigger] plan@[k1].batch_id as int,
                #[trigger] plan@[k2].batch_id as int,
            ) by {
                if k2 == old_plan.len() && k1 < old_plan.len() - 1 {
                    assert(drawn_before(
                        s,
                        old_plan[k1].batch_id as int,
                        old_plan.last().batch_id as int,
                    ));
                }
            }
        }
    }
}

} // verus!
