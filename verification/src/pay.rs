//! The pay summary aggregator: per-user worked minutes and realized
//! profit over the closed clock sessions of a period.
//!
//! Read-only.  A stub counts when it belongs to the user, started
//! inside the period (bounds inclusive) and is closed.  Each counted
//! stub contributes its whole minutes worked, and the realized spread
//! `sell - buy` of every round trip tied to it that has both average
//! prices set.

use vstd::prelude::*;

use crate::model::{clone_string, ClockStub, TransactionView, User};
use crate::session::{AccountSession, SessionView};

verus! {

/// One line of the summary.
#[derive(Clone, Debug)]
pub struct PayRow {
    pub tag: String,
    pub minutes: i128,
    pub earned: i128,
}

/// A stub counts towards the summary for this user and period.
pub open spec fn stub_counts(st: ClockStub, user_id: i64, from: i64, to: i64) -> bool {
    &&& st.user_id == user_id
    &&& from <= st.start_time <= to
    &&& st.end_time is Some
}

/// Whole minutes in a signed duration of seconds, rounded towards
/// zero.
pub open spec fn duration_minutes(d: int) -> int {
    if d >= 0 {
        d / 60
    } else {
        -((-d) / 60)
    }
}

/// Realized spread over the round trips tied to `stub_id` with both
/// legs settled.
pub open spec fn txn_pay(ts: Seq<TransactionView>, stub_id: i32) -> int
    decreases ts.len(),
{
    if ts.len() == 0 {
        0
    } else {
        txn_pay(ts.drop_last(), stub_id) + {
            let t = ts.last();
            if t.clock_stub_id == stub_id && t.buy_avg_price is Some && t.sell_avg_price is Some {
                t.sell_avg_price.unwrap() - t.buy_avg_price.unwrap()
            } else {
                0
            }
        }
    }
}

/// Minutes this user worked in the period, summed over their counted
/// stubs.
pub open spec fn user_minutes(stubs: Seq<ClockStub>, user_id: i64, from: i64, to: i64) -> int
    decreases stubs.len(),
{
    if stubs.len() == 0 {
        0
    } else {
        user_minutes(stubs.drop_last(), user_id, from, to) + {
            let st = stubs.last();
            if stub_counts(st, user_id, from, to) {
                duration_minutes(st.end_time.unwrap() - st.start_time)
            } else {
                0
            }
        }
    }
}

/// Realized profit this user earned in the period, summed over their
/// counted stubs.
pub open spec fn user_earned(
    stubs: Seq<ClockStub>,
    ts: Seq<TransactionView>,
    user_id: i64,
    from: i64,
    to: i64,
) -> int
    decreases stubs.len(),
{
    if stubs.len() == 0 {
        0
    } else {
        user_earned(stubs.drop_last(), ts, user_id, from, to) + {
            let st = stubs.last();
            if stub_counts(st, user_id, from, to) {
                txn_pay(ts, st.id)
            } else {
                0
            }
        }
    }
}

impl AccountSession {
    /// Realized spread over the round trips tied to `stub_id` with
    /// both legs settled.
    fn stub_pay(&self, stub_id: i32) -> (r: i128)
        requires
            self.transactions@.len() <= 0x8000_0000,
        ensures
            r == txn_pay(self@.transactions, stub_id),
            -0x8000_0000_0000_0000_0000_0000 <= r <= 0x8000_0000_0000_0000_0000_0000,
    {
        let ts = &self.transactions;
        let mut acc: i128 = 0;
        let mut j: usize = 0;
        proof {
            assert(ts.deep_view().take(0) =~= Seq::<TransactionView>::empty());
        }
        while j < ts.len()
            invariant
                j <= ts@.len(),
                ts@.len() <= 0x8000_0000,
                ts.deep_view().len() == ts@.len(),
                forall|q: int| 0 <= q < ts@.len() ==> #[trigger] ts.deep_view()[q] == ts@[q]@,
                acc == txn_pay(ts.deep_view().take(j as int), stub_id),
                -(j as int) * 0x1_0000_0000_0000_0000 <= acc <= (j as int)
                    * 0x1_0000_0000_0000_0000,
            decreases ts@.len() - j,
        {
            proof {
                assert(ts.deep_view().take(j as int + 1).drop_last() =~= ts.deep_view().take(
                    j as int,
                ));
                assert(ts.deep_view().take(j as int + 1).last() == ts.deep_view()[j as int]);
            }
            let t = &ts[j];
            if t.clock_stub_id == stub_id && t.buy_avg_price.is_some()
                && t.sell_avg_price.is_some() {
                let buy = match t.buy_avg_price {
                    Some(p) => p,
                    None => 0,
                };
                let sell = match t.sell_avg_price {
                    Some(p) => p,
                    None => 0,
                };
                acc = acc + (sell as i128 - buy as i128);
            }
            j += 1;
        }
        proof {
            assert(ts.deep_view().take(ts@.len() as int) =~= ts.deep_view());
        }
        acc
    }

    /// Per-user summary for the period `[from, to]` (bounds on session
    /// start, inclusive): the user's tag, minutes worked over closed
    /// sessions, and the realized profit of the round trips tied to
    /// them.  One row per given user, in the given order.
    pub fn pay_summary(&self, users: &Vec<User>, from: i64, to: i64) -> (r: Vec<PayRow>)
        requires
            self@.wf(),
            self.stubs@.len() <= 0x8000_0000,
            self.transactions@.len() <= 0x8000_0000,
        ensures
            r@.len() == users@.len(),
            forall|k: int|
                0 <= k < users@.len() ==> {
                    &&& (#[trigger] r@[k]).tag@ == users@[k].tag@
                    &&& r@[k].minutes == user_minutes(self@.stubs, users@[k].id, from, to)
                    &&& r@[k].earned == user_earned(
                        self@.stubs,
                        self@.transactions,
                        users@[k].id,
                        from,
                        to,
                    )
                },
    {
        let mut r: Vec<PayRow> = Vec::new();
        let mut k: usize = 0;
        while k < users.len()
            invariant
                self@.wf(),
                self.stubs@.len() <= 0x8000_0000,
                self.transactions@.len() <= 0x8000_0000,
                k <= users@.len(),
                r@.len() == k,
                forall|q: int|
                    0 <= q < k ==> {
                        &&& (#[trigger] r@[q]).tag@ == users@[q].tag@
                        &&& r@[q].minutes == user_minutes(self@.stubs, users@[q].id, from, to)
                        &&& r@[q].earned == user_earned(
                            self@.stubs,
                            self@.transactions,
                            users@[q].id,
                            from,
                            to,
                        )
                    },
            decreases users@.len() - k,
        {
            let user = &users[k];
            let user_id = user.id;
            let mut minutes: i128 = 0;
            let mut earned: i128 = 0;
            let mut i: usize = 0;
            proof {
                assert(self.stubs@.take(0) =~= Seq::<ClockStub>::empty());
            }
            while i < self.stubs.len()
                invariant
                    self@.wf(),
                    self.stubs@.len() <= 0x8000_0000,
                    self.transactions@.len() <= 0x8000_0000,
                    i <= self.stubs@.len(),
                    minutes == user_minutes(self.stubs@.take(i as int), user_id, from, to),
                    earned == user_earned(
                        self.stubs@.take(i as int),
                        self@.transactions,
                        user_id,
                        from,
                        to,
                    ),
                    -(i as int) * 0x1_0000_0000_0000_0000 <= minutes <= (i as int)
                        * 0x1_0000_0000_0000_0000,
                    -(i as int) * 0x8000_0000_0000_0000_0000_0000 <= earned <= (i as int)
                        * 0x8000_0000_0000_0000_0000_0000,
                decreases self.stubs@.len() - i,
            {
                proof {
                    assert(self.stubs@.take(i as int + 1).drop_last() =~= self.stubs@.take(
                        i as int,
                    ));
                    assert(self.stubs@.take(i as int + 1).last() == self.stubs@[i as int]);
                }
                let st = self.stubs[i];
                if st.user_id == user_id && from <= st.start_time && st.start_time <= to
                    && st.end_time.is_some() {
                    let end = match st.end_time {
                        Some(e) => e,
                        None => 0,
                    };
                    let d: i128 = end as i128 - st.start_time as i128;
                    let m: i128 = if d >= 0 {
                        d / 60
                    } else {
                        -((-d) / 60)
                    };
                    minutes = minutes + m;
                    let pay = self.stub_pay(st.id);
                    earned = earned + pay;
                }
                i += 1;
            }
            proof {
                assert(self.stubs@.take(self.stubs@.len() as int) =~= self.stubs@);
            }
            r.push(PayRow { tag: clone_string(&user.tag), minutes, earned });
            k += 1;
        }
        r
    }
}

} // verus!
