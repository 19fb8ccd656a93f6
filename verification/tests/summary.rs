use tradebot_core::ledger::{OrderStatus, ReconcileOutcome};
use tradebot_core::model::{User, UserDirectory};
use tradebot_core::numeric::OrderFill;
use tradebot_core::session::AccountSession;

#[test]
fn end_to_end_round_trip_pays_the_spread() {
    let mut s = AccountSession::new();
    // user A locks the account with no reservation in the way
    assert!(s.lock(1, 0).is_ok());
    // a market buy goes out and is recorded
    assert!(s.record_buy(11).is_ok());
    // the poller sees the order filled and the quote balance below the
    // threshold: the buy leg settles at the fill price
    let out = s.reconcile(
        OrderStatus::Filled,
        5,
        10,
        &vec![OrderFill { executed_qty: 1, cumulative_quote: 100 }],
    );
    assert_eq!(out, ReconcileOutcome::BuySettled { avg_price: 100 });
    // user A sells; the poller sees it filled and the base balance
    // below its threshold: the sell leg settles and the round trip
    // detaches
    assert!(s.record_sell(21).is_ok());
    let out = s.reconcile(
        OrderStatus::Filled,
        0,
        1,
        &vec![OrderFill { executed_qty: 1, cumulative_quote: 130 }],
    );
    assert_eq!(out, ReconcileOutcome::SellSettled { avg_price: 130 });
    assert!(s.get_transaction().is_none());
    // the session closes after an hour
    assert!(s.unlock(Some(1), 3600).is_ok());
    // the day's summary attributes the spread to user A
    let users = vec![User { id: 1, tag: "alice".to_string() }];
    let rows = s.pay_summary(&users, 0, 86399);
    assert_eq!(rows.len(), 1);
    assert_eq!(rows[0].tag, "alice");
    assert_eq!(rows[0].minutes, 60);
    assert_eq!(rows[0].earned, 30);
}

#[test]
fn summary_skips_open_sessions_and_other_days() {
    let mut s = AccountSession::new();
    // a closed session on the day before
    s.lock(1, -86400).unwrap();
    s.unlock(Some(1), -86400 + 600).unwrap();
    // an open session today
    s.lock(1, 100).unwrap();
    let users = vec![User { id: 1, tag: "alice".to_string() }];
    let rows = s.pay_summary(&users, 0, 86399);
    assert_eq!(rows[0].minutes, 0);
    assert_eq!(rows[0].earned, 0);
}

#[test]
fn summary_ignores_unsettled_round_trips() {
    let mut s = AccountSession::new();
    s.lock(1, 0).unwrap();
    s.record_buy(11).unwrap();
    s.reconcile(
        OrderStatus::Filled,
        5,
        10,
        &vec![OrderFill { executed_qty: 1, cumulative_quote: 100 }],
    );
    // sell leg never settles before the session ends
    s.unlock(Some(1), 1200).unwrap();
    let users = vec![User { id: 1, tag: "alice".to_string() }];
    let rows = s.pay_summary(&users, 0, 86399);
    assert_eq!(rows[0].minutes, 20);
    assert_eq!(rows[0].earned, 0);
}

#[test]
fn summary_keeps_users_apart() {
    let mut s = AccountSession::new();
    s.lock(1, 0).unwrap();
    s.unlock(Some(1), 600).unwrap();
    s.lock(2, 700).unwrap();
    s.unlock(Some(2), 1900).unwrap();
    let users = vec![
        User { id: 1, tag: "alice".to_string() },
        User { id: 2, tag: "bob".to_string() },
    ];
    let rows = s.pay_summary(&users, 0, 86399);
    assert_eq!(rows[0].minutes, 10);
    assert_eq!(rows[1].minutes, 20);
}

#[test]
fn user_directory_rejects_taken_ids() {
    let mut d = UserDirectory::new();
    assert!(d.create_user(1, "alice".to_string()));
    assert!(!d.create_user(1, "impostor".to_string()));
    assert!(d.create_user(2, "bob".to_string()));
    let u = d.find_user(1).expect("registered user expected");
    assert_eq!(u.tag, "alice");
    assert!(d.find_user(3).is_none());
}
