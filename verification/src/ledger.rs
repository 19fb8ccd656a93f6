//! The transaction ledger: recording buy and sell orders against the
//! in-flight round trip, and reconciling that round trip against what
//! the exchange reports.
//!
//! Placing orders with the exchange is the caller's job; the ledger
//! decides whether an order may be placed ([`AccountSession::check_buy`],
//! [`AccountSession::check_sell`]), records the exchange's order id once
//! it was ([`AccountSession::record_buy`], [`AccountSession::record_sell`]),
//! and advances the round trip when the poller hands it the balance and
//! order fills it observed ([`AccountSession::reconcile`]).

use vstd::prelude::*;

use crate::errors::TradeError;
use crate::model::{Transaction, TransactionView};
use crate::numeric::{qty_sum, weighted_avg, weighted_avg_price, OrderFill};
use crate::session::{
    find_transaction, has_transaction, transaction_with_id, AccountSession, SessionView,
};

verus! {

/// One side of a round trip.
#[derive(Clone, Copy, Debug, PartialEq, Eq, Structural)]
pub enum Leg {
    Buy,
    Sell,
}

/// Exchange order status as far as the ledger distinguishes it.
///
/// `Filled` and `Canceled` are both treated as terminal when deciding
/// settlement -- a deliberate conflation, kept and flagged here: a
/// canceled order triggers the same balance-threshold evaluation as a
/// filled one, and only the zero-quantity filter in the averaging step
/// keeps an unfilled canceled order out of the price.
#[derive(Clone, Copy, Debug, PartialEq, Eq, Structural)]
pub enum OrderStatus {
    Filled,
    Canceled,
    /// Any non-terminal status: the order is still working.
    Working,
}

/// A status on which settlement evaluation runs.
pub open spec fn spec_is_terminal(status: OrderStatus) -> bool {
    status == OrderStatus::Filled || status == OrderStatus::Canceled
}

/// A status on which settlement evaluation runs.
pub fn is_terminal(status: OrderStatus) -> (b: bool)
    ensures
        b == spec_is_terminal(status),
{
    match status {
        OrderStatus::Filled => true,
        OrderStatus::Canceled => true,
        OrderStatus::Working => false,
    }
}

/// The leg a round trip is currently working on: the buy leg until its
/// average price is fixed, the sell leg afterwards.
pub open spec fn spec_open_leg(t: TransactionView) -> Leg {
    if t.buy_avg_price is None {
        Leg::Buy
    } else {
        Leg::Sell
    }
}

/// The order ids of the leg the round trip is working on.
pub open spec fn open_leg_ids(t: TransactionView) -> Seq<u64> {
    if t.buy_avg_price is None {
        t.buy_order_ids
    } else {
        t.sell_order_ids
    }
}

/// Whether a buy request is admissible, and with which error it fails:
/// only the lock holder may trade, and an existing round trip must
/// have neither a settled buy leg (sell first) nor an unconfirmed buy
/// order outstanding.
pub open spec fn buy_outcome(s: SessionView) -> Result<(), TradeError> {
    if s.active_stub() is None {
        Err(TradeError::NotClockedIn)
    } else {
        match s.current_transaction() {
            Some(t) => if t.buy_avg_price is Some || !t.buy_ready {
                Err(TradeError::ActiveTransaction)
            } else {
                Ok(())
            },
            None => Ok(()),
        }
    }
}

/// Whether a sell request is admissible, and with which error it
/// fails: only the lock holder may trade, a round trip must exist, its
/// buy leg must be settled, and no sell order may be outstanding.
pub open spec fn sell_outcome(s: SessionView) -> Result<(), TradeError> {
    if s.active_stub() is None {
        Err(TradeError::NotClockedIn)
    } else {
        match s.current_transaction() {
            Some(t) => if t.buy_avg_price is None || !t.sell_ready {
                Err(TradeError::ActiveTransaction)
            } else {
                Ok(())
            },
            None => Err(TradeError::ActiveTransaction),
        }
    }
}

/// A round trip as created on the first buy of a session.
pub open spec fn fresh_transaction(id: i32, clock_stub_id: i32, order_id: u64) -> TransactionView {
    TransactionView {
        id,
        clock_stub_id,
        buy_order_ids: seq![order_id],
        buy_ready: true,
        buy_avg_price: None,
        sell_order_ids: Seq::empty(),
        sell_ready: false,
        sell_avg_price: None,
    }
}

/// The transactions with `order_id` appended to the buy leg of the one
/// carrying `id`, which then has a buy order outstanding.
pub open spec fn append_buy(ts: Seq<TransactionView>, id: i32, order_id: u64) -> Seq<
    TransactionView,
> {
    Seq::new(
        ts.len(),
        |j: int|
            if ts[j].id == id {
                TransactionView {
                    buy_order_ids: ts[j].buy_order_ids.push(order_id),
                    buy_ready: false,
                    ..ts[j]
                }
            } else {
                ts[j]
            },
    )
}

/// The transactions with `order_id` appended to the sell leg of the
/// one carrying `id`, which then has a sell order outstanding.
pub open spec fn append_sell(ts: Seq<TransactionView>, id: i32, order_id: u64) -> Seq<
    TransactionView,
> {
    Seq::new(
        ts.len(),
        |j: int|
            if ts[j].id == id {
                TransactionView {
                    sell_order_ids: ts[j].sell_order_ids.push(order_id),
                    sell_ready: false,
                    ..ts[j]
                }
            } else {
                ts[j]
            },
    )
}

/// The transactions with the buy leg of the one carrying `id` settled
/// at `avg`: the buy price is fixed and selling becomes possible.
pub open spec fn settle_buy(ts: Seq<TransactionView>, id: i32, avg: u64) -> Seq<TransactionView> {
    Seq::new(
        ts.len(),
        |j: int|
            if ts[j].id == id {
                TransactionView {
                    buy_ready: false,
                    sell_ready: true,
                    buy_avg_price: Some(avg),
                    ..ts[j]
                }
            } else {
                ts[j]
            },
    )
}

/// The transactions with the sell leg of the one carrying `id` settled
/// at `avg`.
pub open spec fn settle_sell(ts: Seq<TransactionView>, id: i32, avg: u64) -> Seq<TransactionView> {
    Seq::new(
        ts.len(),
        |j: int|
            if ts[j].id == id {
                TransactionView { sell_ready: false, sell_avg_price: Some(avg), ..ts[j] }
            } else {
                ts[j]
            },
    )
}

/// The transactions with the given leg of the one carrying `id` opened
/// for another order.
pub open spec fn set_leg_ready(ts: Seq<TransactionView>, id: i32, leg: Leg) -> Seq<
    TransactionView,
> {
    Seq::new(
        ts.len(),
        |j: int|
            if ts[j].id == id {
                match leg {
                    Leg::Buy => TransactionView { buy_ready: true, ..ts[j] },
                    Leg::Sell => TransactionView { sell_ready: true, ..ts[j] },
                }
            } else {
                ts[j]
            },
    )
}

/// The state after a successful buy record: the first buy of a session
/// creates a fresh round trip and makes it active; a further buy while
/// the leg is open appends its order id and marks the leg outstanding.
pub open spec fn record_buy_step(s: SessionView, order_id: u64) -> SessionView {
    match s.current_transaction() {
        None => SessionView {
            active_transaction: Some(s.next_transaction_id),
            transactions: s.transactions.push(
                fresh_transaction(s.next_transaction_id, s.active_stub().unwrap().id, order_id),
            ),
            next_transaction_id: (s.next_transaction_id + 1) as i32,
            ..s
        },
        Some(t) => SessionView { transactions: append_buy(s.transactions, t.id, order_id), ..s },
    }
}

/// The state after a successful sell record.
pub open spec fn record_sell_step(s: SessionView, order_id: u64) -> SessionView {
    SessionView {
        transactions: append_sell(
            s.transactions,
            s.current_transaction().unwrap().id,
            order_id,
        ),
        ..s
    }
}

/// What one reconciliation pass decides and reports.
#[derive(Clone, Copy, Debug, PartialEq, Eq, Structural)]
pub enum ReconcileOutcome {
    /// No round trip is active: nothing to reconcile.
    NoTransaction,
    /// The open leg has no order yet (a settled buy leg awaiting the
    /// first sell order): nothing to reconcile.
    AwaitingOrder,
    /// The most recent order of the open leg is still working: check
    /// again next tick.
    NotTerminal,
    /// The order finished but the balance is still above the
    /// threshold: the leg is open for another order.
    LegReady(Leg),
    /// The balance cleared the threshold but no fill carried quantity
    /// (or the average does not fit the price type): leave everything
    /// unchanged and retry next tick.
    Deferred,
    /// The buy leg fully settled at this average price; selling is now
    /// possible.
    BuySettled { avg_price: u64 },
    /// The sell leg fully settled at this average price; the round
    /// trip is closed and detached.
    SellSettled { avg_price: u64 },
}

/// What a reconciliation pass decides, given the most recent order's
/// status, the relevant asset balance (free plus locked), the
/// configured threshold for that asset, and the fills of every order
/// in the open leg.
pub open spec fn reconcile_outcome(
    s: SessionView,
    status: OrderStatus,
    balance: u64,
    threshold: u64,
    fills: Seq<OrderFill>,
) -> ReconcileOutcome {
    match s.active_txn() {
        None => ReconcileOutcome::NoTransaction,
        Some(t) => {
            let leg = spec_open_leg(t);
            if open_leg_ids(t).len() == 0 {
                ReconcileOutcome::AwaitingOrder
            } else if !spec_is_terminal(status) {
                ReconcileOutcome::NotTerminal
            } else if balance > threshold {
                ReconcileOutcome::LegReady(leg)
            } else if qty_sum(fills) > 0 && weighted_avg(fills) <= u64::MAX {
                match leg {
                    Leg::Buy => ReconcileOutcome::BuySettled {
                        avg_price: weighted_avg(fills) as u64,
                    },
                    Leg::Sell => ReconcileOutcome::SellSettled {
                        avg_price: weighted_avg(fills) as u64,
                    },
                }
            } else {
                ReconcileOutcome::Deferred
            }
        }
    }
}

/// The state after a reconciliation pass.
pub open spec fn reconcile_step(
    s: SessionView,
    status: OrderStatus,
    balance: u64,
    threshold: u64,
    fills: Seq<OrderFill>,
) -> SessionView {
    match reconcile_outcome(s, status, balance, threshold, fills) {
        ReconcileOutcome::LegReady(leg) => SessionView {
            transactions: set_leg_ready(s.transactions, s.active_txn().unwrap().id, leg),
            ..s
        },
        ReconcileOutcome::BuySettled { avg_price } => SessionView {
            transactions: settle_buy(s.transactions, s.active_txn().unwrap().id, avg_price),
            ..s
        },
        ReconcileOutcome::SellSettled { avg_price } => SessionView {
            active_transaction: None,
            transactions: settle_sell(s.transactions, s.active_txn().unwrap().id, avg_price),
            ..s
        },
        _ => s,
    }
}

/// The most recent order of the open leg, if any order was placed on
/// it.
pub open spec fn spec_last_open_order(s: SessionView) -> Option<u64> {
    match s.active_txn() {
        None => None,
        Some(t) => {
            let ids = open_leg_ids(t);
            if ids.len() == 0 {
                None
            } else {
                Some(ids.last())
            }
        }
    }
}

/// In a sequence with unique ids, looking up the id of the element at
/// `p` finds exactly that element.
proof fn lemma_txn_at_unique(ts: Seq<TransactionView>, p: int)
    requires
        forall|i: int, j: int|
            0 <= i < ts.len() && 0 <= j < ts.len() && i != j ==> #[trigger] ts[i].id
                != #[trigger] ts[j].id,
        0 <= p < ts.len(),
    ensures
        has_transaction(ts, ts[p].id),
        transaction_with_id(ts, ts[p].id) == ts[p],
{
    let id = ts[p].id;
    assert(has_transaction(ts, id));
    let j = choose|j: int| 0 <= j < ts.len() && ts[j].id == id;
    assert(j == p);
}

/// Shared argument for transaction updates that keep every id and
/// leave every element well-formed: the transaction-related
/// well-formedness clauses carry over, and lookups find the updated
/// elements in place.
proof fn lemma_txn_update_wf_common(s: SessionView, ts1: Seq<TransactionView>)
    requires
        s.wf(),
        ts1.len() == s.transactions.len(),
        forall|j: int| 0 <= j < ts1.len() ==> #[trigger] ts1[j].id == s.transactions[j].id,
    ensures
        forall|i: int, j: int|
            0 <= i < ts1.len() && 0 <= j < ts1.len() && i != j ==> #[trigger] ts1[i].id
                != #[trigger] ts1[j].id,
        forall|i: int| 0 <= i < ts1.len() ==> 0 <= #[trigger] ts1[i].id < s.next_transaction_id,
        match s.active_transaction {
            Some(id) => has_transaction(ts1, id) && forall|p: int|
                0 <= p < ts1.len() && ts1[p].id == id ==> transaction_with_id(ts1, id) == ts1[p],
            None => true,
        },
{
    assert forall|i: int, j: int|
        0 <= i < ts1.len() && 0 <= j < ts1.len() && i != j implies #[trigger] ts1[i].id
        != #[trigger] ts1[j].id by {
        assert(s.transactions[i].id != s.transactions[j].id);
    }
    assert forall|i: int|
        0 <= i < ts1.len() implies 0 <= #[trigger] ts1[i].id < s.next_transaction_id by {
        assert(0 <= s.transactions[i].id < s.next_transaction_id);
    }
    match s.active_transaction {
        Some(id) => {
            let pos = choose|j: int|
                0 <= j < s.transactions.len() && s.transactions[j].id == id;
            assert(ts1[pos].id == id);
            assert(has_transaction(ts1, id));
            assert forall|p: int|
                0 <= p < ts1.len() && ts1[p].id == id implies transaction_with_id(ts1, id)
                == ts1[p] by {
                lemma_txn_at_unique(ts1, p);
            }
        }
        None => {}
    }
}

/// Appending a fresh round trip and making it active yields a
/// well-formed session whose active transaction is the fresh one.
proof fn lemma_push_fresh_txn(s: SessionView, stub_id: i32, order_id: u64)
    requires
        s.wf(),
        s.next_transaction_id < i32::MAX,
    ensures
        ({
            let fresh = fresh_transaction(s.next_transaction_id, stub_id, order_id);
            let s2 = SessionView {
                active_transaction: Some(s.next_transaction_id),
                transactions: s.transactions.push(fresh),
                next_transaction_id: (s.next_transaction_id + 1) as i32,
                ..s
            };
            &&& s2.wf()
            &&& s2.active_txn() == Some(fresh)
        }),
{
    let fresh = fresh_transaction(s.next_transaction_id, stub_id, order_id);
    let s2 = SessionView {
        active_transaction: Some(s.next_transaction_id),
        transactions: s.transactions.push(fresh),
        next_transaction_id: (s.next_transaction_id + 1) as i32,
        ..s
    };
    let n = s.transactions.len() as int;
    assert(s2.transactions[n] == fresh);
    assert(forall|j: int| 0 <= j < n ==> s2.transactions[j] == s.transactions[j]);
    assert(has_transaction(s2.transactions, s.next_transaction_id));
    let j = choose|j: int|
        0 <= j < s2.transactions.len() && s2.transactions[j].id == s.next_transaction_id;
    assert(j == n);
    assert(s2.active_txn() == Some(fresh));
    assert forall|i: int, k: int|
        0 <= i < s2.transactions.len() && 0 <= k < s2.transactions.len() && i != k implies #[trigger]
    s2.transactions[i].id != #[trigger] s2.transactions[k].id by {
        if i < n && k < n {
            assert(s.transactions[i].id != s.transactions[k].id);
        }
    }
    assert forall|i: int|
        0 <= i < s2.transactions.len() implies 0 <= #[trigger] s2.transactions[i].id
        < s2.next_transaction_id by {
        if i < n {
            assert(s2.transactions[i] == s.transactions[i]);
            assert(0 <= s.transactions[i].id < s.next_transaction_id);
        }
    }
    assert forall|i: int|
        0 <= i < s2.transactions.len() implies (#[trigger] s2.transactions[i]).wf() by {
        if i < n {
            assert(s2.transactions[i] == s.transactions[i]);
            assert(s.transactions[i].wf());
        } else {
            assert(s2.transactions[i] == fresh);
        }
    }
    assert(s2.active_stub() == s.active_stub());
    assert(s2.wf());
}

impl AccountSession {
    /// Whether a buy order may be placed right now; checked before the
    /// exchange is asked to place one.
    pub fn check_buy(&self) -> (r: Result<(), TradeError>)
        requires
            self@.wf(),
        ensures
            r == buy_outcome(self@),
    {
        if self.is_clocked_in().is_none() {
            return Err(TradeError::NotClockedIn);
        }
        match self.get_transaction() {
            Some(t) => {
                if t.buy_avg_price.is_some() || !t.buy_ready {
                    Err(TradeError::ActiveTransaction)
                } else {
                    Ok(())
                }
            }
            None => Ok(()),
        }
    }

    /// Whether a sell order may be placed right now.
    pub fn check_sell(&self) -> (r: Result<(), TradeError>)
        requires
            self@.wf(),
        ensures
            r == sell_outcome(self@),
    {
        if self.is_clocked_in().is_none() {
            return Err(TradeError::NotClockedIn);
        }
        match self.get_transaction() {
            Some(t) => {
                if t.buy_avg_price.is_none() || !t.sell_ready {
                    Err(TradeError::ActiveTransaction)
                } else {
                    Ok(())
                }
            }
            None => Err(TradeError::ActiveTransaction),
        }
    }

    /// Record a buy order the exchange accepted.  The first buy of a
    /// session creates the round trip and makes it active; a further
    /// buy appends its order id and marks the buy leg outstanding.
    pub fn record_buy(&mut self, order_id: u64) -> (r: Result<(), TradeError>)
        requires
            old(self)@.wf(),
            old(self).next_transaction_id < i32::MAX,
        ensures
            final(self)@.wf(),
            r == buy_outcome(old(self)@),
            r is Ok ==> final(self)@ =~= record_buy_step(old(self)@, order_id),
            r is Err ==> final(self)@ =~= old(self)@,
    {
        let stub = match self.is_clocked_in() {
            None => {
                return Err(TradeError::NotClockedIn);
            }
            Some(st) => st,
        };
        match self.active_transaction {
            Some(tid) => {
                let pos = match find_transaction(&self.transactions, tid) {
                    Some(pos) => pos,
                    None => {
                        proof {
                            assert(false);
                        }
                        return Err(TradeError::ActiveTransaction);
                    }
                };
                proof {
                    let ts = self@.transactions;
                    let j = choose|j: int| 0 <= j < ts.len() && ts[j].id == tid;
                    assert(ts[j].id == ts[pos as int].id);
                    assert(j == pos as int);
                }
                let allowed = {
                    let t = &self.transactions[pos];
                    t.buy_avg_price.is_none() && t.buy_ready
                };
                if !allowed {
                    return Err(TradeError::ActiveTransaction);
                }
                let ghost s0 = self@;
                let mut t = self.transactions.remove(pos);
                t.buy_order_ids.push(order_id);
                t.buy_ready = false;
                self.transactions.insert(pos, t);
                proof {
                    let s1 = self@;
                    let ts1 = append_buy(s0.transactions, tid, order_id);
                    assert forall|j: int|
                        0 <= j < s1.transactions.len() implies s1.transactions[j] =~= ts1[j] by {
                        if j != pos as int {
                            assert(s0.transactions[j].id != tid);
                        }
                    }
                    assert(s1.transactions =~= ts1);
                    assert(s1 =~= record_buy_step(s0, order_id));
                    lemma_txn_update_wf_common(s0, ts1);
                    assert forall|i: int|
                        0 <= i < ts1.len() implies (#[trigger] ts1[i]).wf() by {
                        assert(s0.transactions[i].wf());
                    }
                    assert(s1.active_stub() == s0.active_stub());
                    assert(s1.active_txn().unwrap().sell_avg_price is None);
                    assert(s1.wf());
                }
                Ok(())
            }
            None => {
                proof {
                    lemma_push_fresh_txn(self@, stub.id, order_id);
                }
                let id = self.next_transaction_id;
                let mut buy_ids: Vec<u64> = Vec::new();
                buy_ids.push(order_id);
                let fresh = Transaction {
                    id,
                    clock_stub_id: stub.id,
                    buy_order_ids: buy_ids,
                    buy_ready: true,
                    buy_avg_price: None,
                    sell_order_ids: Vec::new(),
                    sell_ready: false,
                    sell_avg_price: None,
                };
                proof {
                    assert(fresh@ =~= fresh_transaction(id, stub.id, order_id));
                }
                self.transactions.push(fresh);
                self.active_transaction = Some(id);
                self.next_transaction_id = id + 1;
                proof {
                    let s1 = self@;
                    let ts1 = old(self)@.transactions.push(
                        fresh_transaction(id, stub.id, order_id),
                    );
                    assert forall|j: int|
                        0 <= j < ts1.len() implies s1.transactions[j] =~= ts1[j] by {}
                    assert(s1.transactions =~= ts1);
                    assert(s1 =~= record_buy_step(old(self)@, order_id));
                    assert(s1.active_stub() == old(self)@.active_stub());
                }
                Ok(())
            }
        }
    }

    /// Record a sell order the exchange accepted: append its order id
    /// to the sell leg and mark the leg outstanding.
    pub fn record_sell(&mut self, order_id: u64) -> (r: Result<(), TradeError>)
        requires
            old(self)@.wf(),
        ensures
            final(self)@.wf(),
            r == sell_outcome(old(self)@),
            r is Ok ==> final(self)@ =~= record_sell_step(old(self)@, order_id),
            r is Err ==> final(self)@ =~= old(self)@,
    {
        if self.is_clocked_in().is_none() {
            return Err(TradeError::NotClockedIn);
        }
        let tid = match self.active_transaction {
            None => {
                return Err(TradeError::ActiveTransaction);
            }
            Some(tid) => tid,
        };
        let pos = match find_transaction(&self.transactions, tid) {
            Some(pos) => pos,
            None => {
                proof {
                    assert(false);
                }
                return Err(TradeError::ActiveTransaction);
            }
        };
        proof {
            let ts = self@.transactions;
            let j = choose|j: int| 0 <= j < ts.len() && ts[j].id == tid;
            assert(ts[j].id == ts[pos as int].id);
            assert(j == pos as int);
        }
        let allowed = {
            let t = &self.transactions[pos];
            t.buy_avg_price.is_some() && t.sell_ready
        };
        if !allowed {
            return Err(TradeError::ActiveTransaction);
        }
        let ghost s0 = self@;
        let mut t = self.transactions.remove(pos);
        t.sell_order_ids.push(order_id);
        t.sell_ready = false;
        self.transactions.insert(pos, t);
        proof {
            let s1 = self@;
            let ts1 = append_sell(s0.transactions, tid, order_id);
            assert forall|j: int|
                0 <= j < s1.transactions.len() implies s1.transactions[j] =~= ts1[j] by {
                if j != pos as int {
                    assert(s0.transactions[j].id != tid);
                }
            }
            assert(s1.transactions =~= ts1);
            assert(s1 =~= record_sell_step(s0, order_id));
            lemma_txn_update_wf_common(s0, ts1);
            assert forall|i: int| 0 <= i < ts1.len() implies (#[trigger] ts1[i]).wf() by {
                assert(s0.transactions[i].wf());
            }
            assert(s1.active_stub() == s0.active_stub());
            assert(s1.active_txn().unwrap().sell_avg_price is None);
            assert(s1.wf());
        }
        Ok(())
    }

    /// The leg the active round trip is working on, if one is active.
    pub fn open_leg(&self) -> (r: Option<Leg>)
        requires
            self@.wf(),
        ensures
            match r {
                Some(leg) => self@.active_txn() matches Some(t) && leg == spec_open_leg(t),
                None => self@.active_txn() is None,
            },
    {
        let tid = match self.active_transaction {
            None => {
                return None;
            }
            Some(tid) => tid,
        };
        let pos = match find_transaction(&self.transactions, tid) {
            Some(pos) => pos,
            None => {
                proof {
                    assert(false);
                }
                return None;
            }
        };
        proof {
            let ts = self@.transactions;
            let j = choose|j: int| 0 <= j < ts.len() && ts[j].id == tid;
            assert(ts[j].id == ts[pos as int].id);
            assert(j == pos as int);
        }
        if self.transactions[pos].buy_avg_price.is_none() {
            Some(Leg::Buy)
        } else {
            Some(Leg::Sell)
        }
    }

    /// The order ids of the open leg of the active round trip: what
    /// the poller must look up on the exchange.
    pub fn open_leg_orders(&self) -> (r: Option<Vec<u64>>)
        requires
            self@.wf(),
        ensures
            match r {
                Some(v) => self@.active_txn() matches Some(t) && v@ == open_leg_ids(t),
                None => self@.active_txn() is None,
            },
    {
        let tid = match self.active_transaction {
            None => {
                return None;
            }
            Some(tid) => tid,
        };
        let pos = match find_transaction(&self.transactions, tid) {
            Some(pos) => pos,
            None => {
                proof {
                    assert(false);
                }
                return None;
            }
        };
        proof {
            let ts = self@.transactions;
            let j = choose|j: int| 0 <= j < ts.len() && ts[j].id == tid;
            assert(ts[j].id == ts[pos as int].id);
            assert(j == pos as int);
        }
        let t = &self.transactions[pos];
        if t.buy_avg_price.is_none() {
            Some(crate::session::clone_u64_vec(&t.buy_order_ids))
        } else {
            Some(crate::session::clone_u64_vec(&t.sell_order_ids))
        }
    }

    /// The most recent order of the open leg, if any was placed on it.
    pub fn last_open_order(&self) -> (r: Option<u64>)
        requires
            self@.wf(),
        ensures
            r == spec_last_open_order(self@),
    {
        match self.open_leg_orders() {
            None => None,
            Some(ids) => {
                if ids.len() == 0 {
                    None
                } else {
                    Some(ids[ids.len() - 1])
                }
            }
        }
    }

    /// One reconciliation pass for the active round trip, fed with
    /// what the poller observed: the status of the open leg's most
    /// recent order, the relevant asset balance (free plus locked),
    /// the configured settlement threshold for that asset, and the
    /// fills of every order in the open leg.  When the most recent
    /// order is terminal and the balance cleared the threshold, the
    /// leg settles at the quantity-weighted average fill price; a
    /// settled sell leg closes and detaches the round trip.  When the
    /// balance is still above the threshold the leg merely reopens for
    /// another order.
    pub fn reconcile(
        &mut self,
        status: OrderStatus,
        balance: u64,
        threshold: u64,
        fills: &Vec<OrderFill>,
    ) -> (r: ReconcileOutcome)
        requires
            old(self)@.wf(),
        ensures
            final(self)@.wf(),
            r == reconcile_outcome(old(self)@, status, balance, threshold, fills@),
            final(self)@ =~= reconcile_step(old(self)@, status, balance, threshold, fills@),
    {
        let tid = match self.active_transaction {
            None => {
                return ReconcileOutcome::NoTransaction;
            }
            Some(tid) => tid,
        };
        let pos = match find_transaction(&self.transactions, tid) {
            Some(pos) => pos,
            None => {
                proof {
                    assert(false);
                }
                return ReconcileOutcome::NoTransaction;
            }
        };
        proof {
            let ts = self@.transactions;
            let j = choose|j: int| 0 <= j < ts.len() && ts[j].id == tid;
            assert(ts[j].id == ts[pos as int].id);
            assert(j == pos as int);
        }
        let (buy_leg, ids_len) = {
            let t = &self.transactions[pos];
            if t.buy_avg_price.is_none() {
                (true, t.buy_order_ids.len())
            } else {
                (false, t.sell_order_ids.len())
            }
        };
        let leg = if buy_leg {
            Leg::Buy
        } else {
            Leg::Sell
        };
        if ids_len == 0 {
            return ReconcileOutcome::AwaitingOrder;
        }
        if !is_terminal(status) {
            return ReconcileOutcome::NotTerminal;
        }
        let ghost s0 = self@;
        if balance > threshold {
            let mut t = self.transactions.remove(pos);
            if buy_leg {
                t.buy_ready = true;
            } else {
                t.sell_ready = true;
            }
            self.transactions.insert(pos, t);
            proof {
                let s1 = self@;
                let ts1 = set_leg_ready(s0.transactions, tid, leg);
                assert forall|j: int|
                    0 <= j < s1.transactions.len() implies s1.transactions[j] =~= ts1[j] by {
                    if j != pos as int {
                        assert(s0.transactions[j].id != tid);
                    }
                }
                assert(s1.transactions =~= ts1);
                assert(s1 =~= reconcile_step(s0, status, balance, threshold, fills@));
                lemma_txn_update_wf_common(s0, ts1);
                assert forall|i: int| 0 <= i < ts1.len() implies (#[trigger] ts1[i]).wf() by {
                    assert(s0.transactions[i].wf());
                    if i == pos as int && !buy_leg {
                        assert(s0.active_txn() == Some(s0.transactions[i]));
                    }
                }
                assert(s1.active_stub() == s0.active_stub());
                assert(s1.active_txn().unwrap().sell_avg_price is None);
                assert(s1.wf());
            }
            return ReconcileOutcome::LegReady(leg);
        }
        match weighted_avg_price(fills) {
            None => ReconcileOutcome::Deferred,
            Some(avg) => {
                let mut t = self.transactions.remove(pos);
                if buy_leg {
                    t.buy_ready = false;
                    t.sell_ready = true;
                    t.buy_avg_price = Some(avg);
                } else {
                    t.sell_ready = false;
                    t.sell_avg_price = Some(avg);
                    self.active_transaction = None;
                }
                self.transactions.insert(pos, t);
                proof {
                    let s1 = self@;
                    let ts1 = if buy_leg {
                        settle_buy(s0.transactions, tid, avg)
                    } else {
                        settle_sell(s0.transactions, tid, avg)
                    };
                    assert forall|j: int|
                        0 <= j < s1.transactions.len() implies s1.transactions[j] =~= ts1[j] by {
                        if j != pos as int {
                            assert(s0.transactions[j].id != tid);
                        }
                    }
                    assert(s1.transactions =~= ts1);
                    assert(s1 =~= reconcile_step(s0, status, balance, threshold, fills@));
                    lemma_txn_update_wf_common(s0, ts1);
                    assert forall|i: int| 0 <= i < ts1.len() implies (#[trigger] ts1[i]).wf() by {
                        assert(s0.transactions[i].wf());
                        if i == pos as int && !buy_leg {
                            assert(s0.active_txn() == Some(s0.transactions[i]));
                        }
                    }
                    assert(s1.active_stub() == s0.active_stub());
                    if buy_leg {
                        assert(s1.active_txn().unwrap().sell_avg_price is None);
                    }
                    assert(s1.wf());
                }
                if buy_leg {
                    ReconcileOutcome::BuySettled { avg_price: avg }
                } else {
                    ReconcileOutcome::SellSettled { avg_price: avg }
                }
            }
        }
    }
}

/// A settled buy price is permanent.  Once the active round trip's buy
/// leg has settled: no buy can start a new round trip or touch the
/// existing one (it is rejected outright), recording a sell keeps the
/// price, and every reconciliation pass keeps it too.
pub proof fn lemma_buy_price_monotonic(
    s: SessionView,
    p: u64,
    order_id: u64,
    status: OrderStatus,
    balance: u64,
    threshold: u64,
    fills: Seq<OrderFill>,
)
    requires
        s.wf(),
        s.active_txn() matches Some(t) && t.buy_avg_price == Some(p),
    ensures
        s.active_stub() is Some ==> buy_outcome(s) == Err::<(), TradeError>(
            TradeError::ActiveTransaction,
        ),
        sell_outcome(s) is Ok ==> transaction_with_id(
            record_sell_step(s, order_id).transactions,
            s.active_txn().unwrap().id,
        ).buy_avg_price == Some(p),
        transaction_with_id(
            reconcile_step(s, status, balance, threshold, fills).transactions,
            s.active_txn().unwrap().id,
        ).buy_avg_price == Some(p),
{
    let t = s.active_txn().unwrap();
    let pos = choose|j: int|
        0 <= j < s.transactions.len() && s.transactions[j].id == s.active_transaction.unwrap();
    assert(s.transactions[pos] == t);
    if sell_outcome(s) is Ok {
        let ts1 = record_sell_step(s, order_id).transactions;
        assert(ts1[pos].buy_avg_price == Some(p));
        lemma_txn_update_wf_common(s, ts1);
        assert(transaction_with_id(ts1, t.id) == ts1[pos]);
    }
    let ts2 = reconcile_step(s, status, balance, threshold, fills).transactions;
    assert(ts2.len() == s.transactions.len());
    assert forall|j: int|
        0 <= j < ts2.len() implies #[trigger] ts2[j].id == s.transactions[j].id by {}
    assert(ts2[pos].buy_avg_price == Some(p));
    lemma_txn_update_wf_common(s, ts2);
    assert(transaction_with_id(ts2, t.id) == ts2[pos]);
}

} // verus!
