//! The persisted entities of the core, modelled as plain values.
//!
//! Timestamps are UTC instants counted in whole seconds; durations given
//! by configuration are counted in whole minutes.  Prices and quantities
//! are fixed-point integers: the caller picks one scale for quote values
//! and one for base quantities and uses them consistently.

use vstd::prelude::*;

verus! {

/// One continuous session of a user holding the account lock.
/// `end_time` stays unset while the session is active.
#[derive(Clone, Copy, Debug, PartialEq, Eq, Structural)]
pub struct ClockStub {
    pub id: i32,
    pub start_time: i64,
    pub end_time: Option<i64>,
    pub user_id: i64,
    /// Most recent qualifying activity, used for AFK detection.
    pub last_interaction: i64,
    /// Whether an AFK warning has already been issued for the current
    /// stretch of inactivity.
    pub afk_warn_flag: bool,
}

impl ClockStub {
    /// A stub is open while its end time is unset.
    pub open spec fn is_open(self) -> bool {
        self.end_time is None
    }
}

/// A user's claim to exclusive account access during
/// `[start_time, end_time)`.
#[derive(Clone, Copy, Debug, PartialEq, Eq, Structural)]
pub struct Reservation {
    pub id: i32,
    pub start_time: i64,
    pub end_time: i64,
    /// Whether the pre-reservation notification has fired.
    pub alerted: bool,
    pub user_id: i64,
}

impl Reservation {
    /// Two half-open windows overlap when each starts before the other ends.
    pub open spec fn overlaps(self, start: i64, end: i64) -> bool {
        self.start_time < end && self.end_time > start
    }

    /// The instant `t` falls inside this window.
    pub open spec fn covers(self, t: i64) -> bool {
        self.start_time <= t && t < self.end_time
    }
}

/// One buy-then-sell round trip tied to a clock stub.
///
/// The leg state is encoded by the two ready flags and the presence of
/// the average prices: a leg's average price is computed once, when the
/// leg fully settles, and never cleared.
#[derive(Clone, Debug)]
pub struct Transaction {
    pub id: i32,
    pub clock_stub_id: i32,
    /// Exchange order ids placed so far for the buy leg, oldest first.
    pub buy_order_ids: Vec<u64>,
    /// Whether another buy order may be placed.
    pub buy_ready: bool,
    /// Quantity-weighted average fill price of the settled buy leg.
    pub buy_avg_price: Option<u64>,
    /// Exchange order ids placed so far for the sell leg, oldest first.
    pub sell_order_ids: Vec<u64>,
    /// Whether another sell order may be placed.
    pub sell_ready: bool,
    /// Quantity-weighted average fill price of the settled sell leg.
    pub sell_avg_price: Option<u64>,
}

/// Mathematical image of a [`Transaction`].
#[verifier::ext_equal]
pub struct TransactionView {
    pub id: i32,
    pub clock_stub_id: i32,
    pub buy_order_ids: Seq<u64>,
    pub buy_ready: bool,
    pub buy_avg_price: Option<u64>,
    pub sell_order_ids: Seq<u64>,
    pub sell_ready: bool,
    pub sell_avg_price: Option<u64>,
}

impl View for Transaction {
    type V = TransactionView;

    open spec fn view(&self) -> TransactionView {
        TransactionView {
            id: self.id,
            clock_stub_id: self.clock_stub_id,
            buy_order_ids: self.buy_order_ids@,
            buy_ready: self.buy_ready,
            buy_avg_price: self.buy_avg_price,
            sell_order_ids: self.sell_order_ids@,
            sell_ready: self.sell_ready,
            sell_avg_price: self.sell_avg_price,
        }
    }
}

impl DeepView for Transaction {
    type V = TransactionView;

    open spec fn deep_view(&self) -> TransactionView {
        self.view()
    }
}

impl TransactionView {
    /// Field combinations a round trip can actually reach: orders exist
    /// for the buy leg; the sell leg stays untouched until the buy leg
    /// has settled; a settled leg accepts no further orders.
    pub open spec fn wf(self) -> bool {
        &&& self.buy_order_ids.len() >= 1
        &&& self.buy_avg_price is None ==> {
            &&& self.sell_order_ids.len() == 0
            &&& self.sell_avg_price is None
            &&& !self.sell_ready
        }
        &&& self.buy_avg_price is Some ==> !self.buy_ready
        &&& self.sell_avg_price is Some ==> !self.sell_ready
    }
}

/// A registered operator.
#[derive(Clone, Debug)]
pub struct User {
    pub id: i64,
    pub tag: String,
}

/// A character-for-character copy.
pub(crate) fn clone_string(s: &String) -> (r: String)
    ensures
        r@ == s@,
{
    s.clone()
}

/// The registered operators, ids unique.
#[derive(Debug)]
pub struct UserDirectory {
    pub users: Vec<User>,
}

/// Some registered user carries this id.
pub open spec fn has_user(us: Seq<User>, id: i64) -> bool {
    exists|i: int| 0 <= i < us.len() && (#[trigger] us[i]).id == id
}

impl UserDirectory {
    /// Ids are unique.
    pub open spec fn wf(self) -> bool {
        forall|i: int, j: int|
            0 <= i < self.users@.len() && 0 <= j < self.users@.len() && i != j
                ==> #[trigger] self.users@[i].id != #[trigger] self.users@[j].id
    }

    /// An empty directory.
    pub fn new() -> (r: UserDirectory)
        ensures
            r.wf(),
            r.users@.len() == 0,
    {
        UserDirectory { users: Vec::new() }
    }

    /// Register a user.  A taken id surfaces as `false`, mirroring the
    /// store's uniqueness rule.
    pub fn create_user(&mut self, id: i64, tag: String) -> (r: bool)
        requires
            old(self).wf(),
        ensures
            final(self).wf(),
            r == !has_user(old(self).users@, id),
            r ==> {
                &&& final(self).users@.len() == old(self).users@.len() + 1
                &&& final(self).users@.last().id == id
                &&& final(self).users@.last().tag@ == tag@
                &&& final(self).users@.take(old(self).users@.len() as int) == old(self).users@
            },
            !r ==> final(self).users@ == old(self).users@,
    {
        let mut i: usize = 0;
        while i < self.users.len()
            invariant
                self == old(self),
                old(self).wf(),
                i <= self.users@.len(),
                forall|j: int| 0 <= j < i ==> #[trigger] self.users@[j].id != id,
            decreases self.users@.len() - i,
        {
            if self.users[i].id == id {
                return false;
            }
            i += 1;
        }
        let ghost us0 = self.users@;
        self.users.push(User { id, tag });
        proof {
            assert(self.users@.take(us0.len() as int) =~= us0);
            assert forall|a: int, b: int|
                0 <= a < self.users@.len() && 0 <= b < self.users@.len() && a
                    != b implies #[trigger] self.users@[a].id != #[trigger] self.users@[b].id by {
                if a < us0.len() && b < us0.len() {
                    assert(us0[a].id != us0[b].id);
                }
            }
        }
        true
    }

    /// The registered user carrying this id.
    pub fn find_user(&self, id: i64) -> (r: Option<User>)
        requires
            self.wf(),
        ensures
            match r {
                Some(u) => has_user(self.users@, id) && u.id == id && exists|i: int|
                    0 <= i < self.users@.len() && #[trigger] self.users@[i].id == id
                        && u.tag@ == self.users@[i].tag@,
                None => !has_user(self.users@, id),
            },
    {
        let mut i: usize = 0;
        while i < self.users.len()
            invariant
                i <= self.users@.len(),
                forall|j: int| 0 <= j < i ==> #[trigger] self.users@[j].id != id,
            decreases self.users@.len() - i,
        {
            if self.users[i].id == id {
                let u = &self.users[i];
                return Some(User { id: u.id, tag: u.tag.clone() });
            }
            i += 1;
        }
        None
    }
}

} // verus!
