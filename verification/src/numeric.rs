//! Settlement arithmetic: the quantity-weighted average fill price.
//!
//! Prices and quantities are fixed-point integers.  An order's fill is
//! reported as its executed base quantity together with the cumulative
//! quote amount paid for it, so the quantity-weighted mean price over a
//! set of orders is the total quote paid divided by the total quantity
//! executed.  Orders with zero executed quantity carry no information
//! (their per-order price would be undefined) and are excluded.

use vstd::prelude::*;

verus! {

/// What the exchange reports as filled for one order.
#[derive(Clone, Copy, Debug, PartialEq, Eq, Structural)]
pub struct OrderFill {
    /// Base quantity executed, fixed-point.
    pub executed_qty: u64,
    /// Quote amount paid or received for the executed quantity,
    /// fixed-point.
    pub cumulative_quote: u64,
}

/// Total executed quantity over the fills, zero-quantity fills
/// contributing nothing.
pub open spec fn qty_sum(fills: Seq<OrderFill>) -> int
    decreases fills.len(),
{
    if fills.len() == 0 {
        0
    } else {
        qty_sum(fills.drop_last()) + fills.last().executed_qty as int
    }
}

/// Total quote amount over the fills with positive executed quantity.
pub open spec fn quote_sum(fills: Seq<OrderFill>) -> int
    decreases fills.len(),
{
    if fills.len() == 0 {
        0
    } else {
        quote_sum(fills.drop_last()) + (
        if fills.last().executed_qty > 0 {
            fills.last().cumulative_quote as int
        } else {
            0
        })
    }
}

/// The quantity-weighted average price: total quote paid over total
/// quantity executed, rounded down.  Meaningful only when some fill
/// has positive quantity.
pub open spec fn weighted_avg(fills: Seq<OrderFill>) -> int {
    quote_sum(fills) / qty_sum(fills)
}

/// Partial sums never turn negative and are bounded by the number of
/// summands.
proof fn lemma_sums_bounded(fills: Seq<OrderFill>)
    ensures
        0 <= qty_sum(fills) <= fills.len() * u64::MAX,
        0 <= quote_sum(fills) <= fills.len() * u64::MAX,
    decreases fills.len(),
{
    if fills.len() > 0 {
        lemma_sums_bounded(fills.drop_last());
        assert((fills.len() - 1) * u64::MAX + u64::MAX == fills.len() * u64::MAX) by (nonlinear_arith);
    }
}

/// The quantity-weighted average fill price across `fills`, excluding
/// fills with zero executed quantity.  `None` when no fill carries
/// quantity (the average is not yet resolvable) or when the quotient
/// does not fit the price type.
pub fn weighted_avg_price(fills: &Vec<OrderFill>) -> (r: Option<u64>)
    ensures
        r is Some <==> qty_sum(fills@) > 0 && weighted_avg(fills@) <= u64::MAX,
        r matches Some(p) ==> p == weighted_avg(fills@),
{
    let mut total_qty: u128 = 0;
    let mut total_quote: u128 = 0;
    let mut i: usize = 0;
    proof {
        assert(fills@.take(0) =~= Seq::<OrderFill>::empty());
    }
    while i < fills.len()
        invariant
            i <= fills@.len(),
            total_qty == qty_sum(fills@.take(i as int)),
            total_quote == quote_sum(fills@.take(i as int)),
        decreases fills@.len() - i,
    {
        proof {
            lemma_sums_bounded(fills@.take(i as int));
            assert(fills@.take(i as int).len() * u64::MAX <= fills@.len() * u64::MAX);
            assert(fills@.len() * u64::MAX + u64::MAX < u128::MAX) by (nonlinear_arith)
                requires
                    fills@.len() < 0x1_0000_0000_0000_0000,
            ;
            assert(fills@.take(i as int + 1).drop_last() =~= fills@.take(i as int));
            assert(fills@.take(i as int + 1).last() == fills@[i as int]);
        }
        let f = fills[i];
        if f.executed_qty > 0 {
            total_qty = total_qty + f.executed_qty as u128;
            total_quote = total_quote + f.cumulative_quote as u128;
        } else {
            proof {
                assert(qty_sum(fills@.take(i as int + 1)) == qty_sum(fills@.take(i as int)));
            }
        }
        i += 1;
    }
    proof {
        assert(fills@.take(fills@.len() as int) =~= fills@);
    }
    if total_qty == 0 {
        return None;
    }
    let avg: u128 = total_quote / total_qty;
    if avg > u64::MAX as u128 {
        return None;
    }
    Some(avg as u64)
}

} // verus!
