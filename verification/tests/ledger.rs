use tradebot_core::errors::TradeError;
use tradebot_core::ledger::{Leg, OrderStatus, ReconcileOutcome};
use tradebot_core::numeric::{weighted_avg_price, OrderFill};
use tradebot_core::session::AccountSession;

fn fill(executed_qty: u64, cumulative_quote: u64) -> OrderFill {
    OrderFill { executed_qty, cumulative_quote }
}

#[test]
fn weighted_average_of_equal_quantities() {
    // fills (price=100, qty=1) and (price=110, qty=1)
    let fills = vec![fill(1, 100), fill(1, 110)];
    assert_eq!(weighted_avg_price(&fills), Some(105));
}

#[test]
fn weighted_average_weights_by_quantity() {
    // fills (price=100, qty=2) and (price=130, qty=1)
    let fills = vec![fill(2, 200), fill(1, 130)];
    assert_eq!(weighted_avg_price(&fills), Some(110));
}

#[test]
fn weighted_average_skips_empty_fills() {
    let fills = vec![fill(0, 999), fill(1, 100), fill(1, 110)];
    assert_eq!(weighted_avg_price(&fills), Some(105));
}

#[test]
fn weighted_average_of_nothing_is_unresolved() {
    assert_eq!(weighted_avg_price(&vec![]), None);
    assert_eq!(weighted_avg_price(&vec![fill(0, 50)]), None);
}

#[test]
fn buying_requires_the_lock() {
    let mut s = AccountSession::new();
    assert_eq!(s.check_buy(), Err(TradeError::NotClockedIn));
    assert_eq!(s.record_buy(11), Err(TradeError::NotClockedIn));
}

#[test]
fn first_buy_creates_the_round_trip() {
    let mut s = AccountSession::new();
    s.lock(1, 0).unwrap();
    assert_eq!(s.check_buy(), Ok(()));
    assert_eq!(s.record_buy(11), Ok(()));
    let t = s.get_transaction().expect("round trip expected");
    assert_eq!(t.buy_order_ids, vec![11]);
    assert!(t.buy_ready);
    assert_eq!(t.buy_avg_price, None);
    assert!(t.sell_order_ids.is_empty());
    assert!(!t.sell_ready);
    assert_eq!(t.sell_avg_price, None);
}

#[test]
fn further_buy_appends_and_blocks_the_leg() {
    let mut s = AccountSession::new();
    s.lock(1, 0).unwrap();
    s.record_buy(11).unwrap();
    assert_eq!(s.record_buy(12), Ok(()));
    let t = s.get_transaction().unwrap();
    assert_eq!(t.buy_order_ids, vec![11, 12]);
    assert!(!t.buy_ready);
    // the leg now has an unconfirmed order outstanding
    assert_eq!(s.record_buy(13), Err(TradeError::ActiveTransaction));
}

#[test]
fn buy_rejected_once_the_leg_settled() {
    let mut s = AccountSession::new();
    s.lock(1, 0).unwrap();
    s.record_buy(11).unwrap();
    let out = s.reconcile(OrderStatus::Filled, 5, 10, &vec![fill(1, 100)]);
    assert_eq!(out, ReconcileOutcome::BuySettled { avg_price: 100 });
    // must sell first
    assert_eq!(s.check_buy(), Err(TradeError::ActiveTransaction));
    assert_eq!(s.record_buy(12), Err(TradeError::ActiveTransaction));
}

#[test]
fn selling_requires_a_settled_buy_leg() {
    let mut s = AccountSession::new();
    s.lock(1, 0).unwrap();
    // no round trip at all
    assert_eq!(s.check_sell(), Err(TradeError::ActiveTransaction));
    assert_eq!(s.record_sell(21), Err(TradeError::ActiveTransaction));
    s.record_buy(11).unwrap();
    // buy leg not settled yet
    assert_eq!(s.check_sell(), Err(TradeError::ActiveTransaction));
    assert_eq!(s.record_sell(21), Err(TradeError::ActiveTransaction));
}

#[test]
fn reconcile_without_transaction_is_a_no_op() {
    let mut s = AccountSession::new();
    let out = s.reconcile(OrderStatus::Filled, 0, 10, &vec![]);
    assert_eq!(out, ReconcileOutcome::NoTransaction);
}

#[test]
fn reconcile_waits_for_a_terminal_status() {
    let mut s = AccountSession::new();
    s.lock(1, 0).unwrap();
    s.record_buy(11).unwrap();
    let out = s.reconcile(OrderStatus::Working, 5, 10, &vec![fill(1, 100)]);
    assert_eq!(out, ReconcileOutcome::NotTerminal);
    let t = s.get_transaction().unwrap();
    assert_eq!(t.buy_avg_price, None);
}

#[test]
fn reconcile_reopens_the_leg_above_threshold() {
    let mut s = AccountSession::new();
    s.lock(1, 0).unwrap();
    s.record_buy(11).unwrap();
    s.record_buy(12).unwrap();
    let t = s.get_transaction().unwrap();
    assert!(!t.buy_ready);
    // quote balance still above the threshold: ready to buy again
    let out = s.reconcile(OrderStatus::Filled, 50, 10, &vec![fill(1, 100)]);
    assert_eq!(out, ReconcileOutcome::LegReady(Leg::Buy));
    let t = s.get_transaction().unwrap();
    assert!(t.buy_ready);
    assert_eq!(t.buy_avg_price, None);
}

#[test]
fn reconcile_defers_without_usable_fills() {
    let mut s = AccountSession::new();
    s.lock(1, 0).unwrap();
    s.record_buy(11).unwrap();
    // canceled with zero fill: the balance cleared the threshold but no
    // fill carries quantity, so nothing changes this tick
    let out = s.reconcile(OrderStatus::Canceled, 5, 10, &vec![fill(0, 0)]);
    assert_eq!(out, ReconcileOutcome::Deferred);
    let t = s.get_transaction().unwrap();
    assert_eq!(t.buy_avg_price, None);
    assert!(t.buy_ready);
}

#[test]
fn canceled_counts_as_terminal_for_settlement() {
    let mut s = AccountSession::new();
    s.lock(1, 0).unwrap();
    s.record_buy(11).unwrap();
    let out = s.reconcile(OrderStatus::Canceled, 5, 10, &vec![fill(2, 220)]);
    assert_eq!(out, ReconcileOutcome::BuySettled { avg_price: 110 });
}

#[test]
fn full_round_trip_settles_and_detaches() {
    let mut s = AccountSession::new();
    s.lock(1, 0).unwrap();
    s.record_buy(11).unwrap();
    let out = s.reconcile(OrderStatus::Filled, 5, 10, &vec![fill(1, 100)]);
    assert_eq!(out, ReconcileOutcome::BuySettled { avg_price: 100 });
    let t = s.get_transaction().unwrap();
    assert_eq!(t.buy_avg_price, Some(100));
    assert!(!t.buy_ready);
    assert!(t.sell_ready);
    // sell leg
    assert_eq!(s.check_sell(), Ok(()));
    assert_eq!(s.record_sell(21), Ok(()));
    let t = s.get_transaction().unwrap();
    assert_eq!(t.sell_order_ids, vec![21]);
    assert!(!t.sell_ready);
    let out = s.reconcile(OrderStatus::Filled, 0, 1, &vec![fill(1, 130)]);
    assert_eq!(out, ReconcileOutcome::SellSettled { avg_price: 130 });
    // closed and detached; the row itself survives for history
    assert!(s.get_transaction().is_none());
    assert_eq!(s.transactions.len(), 1);
    assert_eq!(s.transactions[0].sell_avg_price, Some(130));
    assert_eq!(s.transactions[0].buy_avg_price, Some(100));
}

#[test]
fn open_leg_follows_the_buy_price() {
    let mut s = AccountSession::new();
    s.lock(1, 0).unwrap();
    assert_eq!(s.open_leg(), None);
    assert_eq!(s.last_open_order(), None);
    s.record_buy(11).unwrap();
    assert_eq!(s.open_leg(), Some(Leg::Buy));
    assert_eq!(s.last_open_order(), Some(11));
    s.record_buy(12).unwrap();
    assert_eq!(s.last_open_order(), Some(12));
    s.reconcile(OrderStatus::Filled, 5, 10, &vec![fill(1, 100), fill(1, 110)]);
    assert_eq!(s.open_leg(), Some(Leg::Sell));
    // a settled buy leg awaiting its first sell order
    assert_eq!(s.last_open_order(), None);
    let out = s.reconcile(OrderStatus::Filled, 0, 1, &vec![]);
    assert_eq!(out, ReconcileOutcome::AwaitingOrder);
}
