//! The account session: the one serialization point for every state
//! change against the shared trading account.
//!
//! The session owns the account's pointers (active clock stub, active
//! reservation, active transaction) together with all clock stubs,
//! reservations and transactions.  Callers funnel every mutating
//! operation through one owned session value, which makes each
//! operation atomic with respect to the others.

use vstd::prelude::*;

use crate::errors::LockError;
use crate::model::{ClockStub, Reservation, Transaction, TransactionView};

verus! {

/// All shared state of the single trading account.
pub struct AccountSession {
    /// Reference to the clock stub of the current lock holder.
    pub active_clock_stub: Option<i32>,
    /// Reference to a reservation currently pre-empting the lock.
    pub active_reservation: Option<i32>,
    /// Reference to the in-flight buy/sell round trip.
    pub active_transaction: Option<i32>,
    pub stubs: Vec<ClockStub>,
    pub reservations: Vec<Reservation>,
    pub transactions: Vec<Transaction>,
    pub next_stub_id: i32,
    pub next_reservation_id: i32,
    pub next_transaction_id: i32,
}

/// Mathematical image of an [`AccountSession`].
#[verifier::ext_equal]
pub struct SessionView {
    pub active_clock_stub: Option<i32>,
    pub active_reservation: Option<i32>,
    pub active_transaction: Option<i32>,
    pub stubs: Seq<ClockStub>,
    pub reservations: Seq<Reservation>,
    pub transactions: Seq<TransactionView>,
    pub next_stub_id: i32,
    pub next_reservation_id: i32,
    pub next_transaction_id: i32,
}

impl View for AccountSession {
    type V = SessionView;

    open spec fn view(&self) -> SessionView {
        SessionView {
            active_clock_stub: self.active_clock_stub,
            active_reservation: self.active_reservation,
            active_transaction: self.active_transaction,
            stubs: self.stubs@,
            reservations: self.reservations@,
            transactions: self.transactions.deep_view(),
            next_stub_id: self.next_stub_id,
            next_reservation_id: self.next_reservation_id,
            next_transaction_id: self.next_transaction_id,
        }
    }
}

/// There is a clock stub carrying this id.
pub open spec fn has_stub(stubs: Seq<ClockStub>, id: i32) -> bool {
    exists|j: int| 0 <= j < stubs.len() && stubs[j].id == id
}

/// The clock stub carrying this id (meaningful when ids are unique
/// and one exists).
pub open spec fn stub_with_id(stubs: Seq<ClockStub>, id: i32) -> ClockStub {
    stubs[choose|j: int| 0 <= j < stubs.len() && stubs[j].id == id]
}

/// There is a reservation carrying this id.
pub open spec fn has_reservation(rs: Seq<Reservation>, id: i32) -> bool {
    exists|j: int| 0 <= j < rs.len() && rs[j].id == id
}

/// The reservation carrying this id.
pub open spec fn reservation_with_id(rs: Seq<Reservation>, id: i32) -> Reservation {
    rs[choose|j: int| 0 <= j < rs.len() && rs[j].id == id]
}

/// There is a transaction carrying this id.
pub open spec fn has_transaction(ts: Seq<TransactionView>, id: i32) -> bool {
    exists|j: int| 0 <= j < ts.len() && ts[j].id == id
}

/// The transaction carrying this id.
pub open spec fn transaction_with_id(ts: Seq<TransactionView>, id: i32) -> TransactionView {
    ts[choose|j: int| 0 <= j < ts.len() && ts[j].id == id]
}

impl SessionView {
    /// The clock stub of the current lock holder, if any.
    pub open spec fn active_stub(self) -> Option<ClockStub> {
        match self.active_clock_stub {
            Some(id) => if has_stub(self.stubs, id) {
                Some(stub_with_id(self.stubs, id))
            } else {
                None
            },
            None => None,
        }
    }

    /// The reservation currently pre-empting the lock, if any.
    pub open spec fn active_res(self) -> Option<Reservation> {
        match self.active_reservation {
            Some(id) => if has_reservation(self.reservations, id) {
                Some(reservation_with_id(self.reservations, id))
            } else {
                None
            },
            None => None,
        }
    }

    /// The in-flight round trip, if any.
    pub open spec fn active_txn(self) -> Option<TransactionView> {
        match self.active_transaction {
            Some(id) => if has_transaction(self.transactions, id) {
                Some(transaction_with_id(self.transactions, id))
            } else {
                None
            },
            None => None,
        }
    }

    /// The in-flight round trip as seen by the lock holder: present
    /// only while somebody holds the lock.
    pub open spec fn current_transaction(self) -> Option<TransactionView> {
        if self.active_stub() is Some {
            self.active_txn()
        } else {
            None
        }
    }

    /// Well-formedness: ids are unique and below their counters, the
    /// active pointers reference live entities, exactly the stub the
    /// account points at may be open, round trips have reachable field
    /// combinations, reservation windows never overlap, and the active
    /// round trip is not yet closed.
    pub open spec fn wf(self) -> bool {
        &&& 0 <= self.next_stub_id
        &&& 0 <= self.next_reservation_id
        &&& 0 <= self.next_transaction_id
        &&& forall|i: int, j: int|
            0 <= i < self.stubs.len() && 0 <= j < self.stubs.len() && i != j
                ==> #[trigger] self.stubs[i].id != #[trigger] self.stubs[j].id
        &&& forall|i: int| 0 <= i < self.stubs.len()
                ==> 0 <= #[trigger] self.stubs[i].id < self.next_stub_id
        &&& forall|i: int, j: int|
            0 <= i < self.reservations.len() && 0 <= j < self.reservations.len() && i != j
                ==> #[trigger] self.reservations[i].id != #[trigger] self.reservations[j].id
        &&& forall|i: int| 0 <= i < self.reservations.len()
                ==> 0 <= #[trigger] self.reservations[i].id < self.next_reservation_id
        &&& forall|i: int, j: int|
            0 <= i < self.transactions.len() && 0 <= j < self.transactions.len() && i != j
                ==> #[trigger] self.transactions[i].id != #[trigger] self.transactions[j].id
        &&& forall|i: int| 0 <= i < self.transactions.len()
                ==> 0 <= #[trigger] self.transactions[i].id < self.next_transaction_id
        &&& match self.active_clock_stub {
            Some(id) => has_stub(self.stubs, id) && stub_with_id(self.stubs, id).is_open(),
            None => true,
        }
        &&& forall|i: int|
            0 <= i < self.stubs.len() && (#[trigger] self.stubs[i]).is_open()
                ==> self.active_clock_stub == Some(self.stubs[i].id)
        &&& match self.active_reservation {
            Some(id) => has_reservation(self.reservations, id),
            None => true,
        }
        &&& match self.active_transaction {
            Some(id) => has_transaction(self.transactions, id),
            None => true,
        }
        &&& forall|i: int| 0 <= i < self.transactions.len()
                ==> (#[trigger] self.transactions[i]).wf()
        &&& forall|i: int, j: int|
            0 <= i < self.reservations.len() && 0 <= j < self.reservations.len() && i != j
                ==> !(#[trigger] self.reservations[i]).overlaps(
                    (#[trigger] self.reservations[j]).start_time,
                    self.reservations[j].end_time,
                )
        &&& match self.active_txn() {
            Some(t) => t.sell_avg_price is None,
            None => true,
        }
    }
}

/// Position of the stub carrying this id, scanning from the front.
pub(crate) fn find_stub(stubs: &Vec<ClockStub>, id: i32) -> (r: Option<usize>)
    ensures
        match r {
            Some(i) => i < stubs@.len() && stubs@[i as int].id == id,
            None => !has_stub(stubs@, id),
        },
{
    let mut i: usize = 0;
    while i < stubs.len()
        invariant
            i <= stubs@.len(),
            forall|j: int| 0 <= j < i ==> stubs@[j].id != id,
        decreases stubs@.len() - i,
    {
        if stubs[i].id == id {
            return Some(i);
        }
        i += 1;
    }
    None
}

/// Position of the reservation carrying this id.
pub(crate) fn find_reservation(rs: &Vec<Reservation>, id: i32) -> (r: Option<usize>)
    ensures
        match r {
            Some(i) => i < rs@.len() && rs@[i as int].id == id,
            None => !has_reservation(rs@, id),
        },
{
    let mut i: usize = 0;
    while i < rs.len()
        invariant
            i <= rs@.len(),
            forall|j: int| 0 <= j < i ==> rs@[j].id != id,
        decreases rs@.len() - i,
    {
        if rs[i].id == id {
            return Some(i);
        }
        i += 1;
    }
    None
}

/// Position of the transaction carrying this id.
pub(crate) fn find_transaction(ts: &Vec<Transaction>, id: i32) -> (r: Option<usize>)
    ensures
        match r {
            Some(i) => i < ts.deep_view().len() && ts.deep_view()[i as int].id == id,
            None => !has_transaction(ts.deep_view(), id),
        },
{
    let mut i: usize = 0;
    while i < ts.len()
        invariant
            i <= ts@.len(),
            ts.deep_view().len() == ts@.len(),
            forall|j: int| 0 <= j < ts@.len() ==> #[trigger] ts.deep_view()[j] == ts@[j]@,
            forall|j: int| 0 <= j < i ==> ts.deep_view()[j].id != id,
        decreases ts@.len() - i,
    {
        if ts[i].id == id {
            return Some(i);
        }
        i += 1;
    }
    None
}

impl AccountSession {
    /// A fresh session with no history and nothing active.
    pub fn new() -> (r: AccountSession)
        ensures
            r@.wf(),
            r@.active_clock_stub is None,
            r@.active_reservation is None,
            r@.active_transaction is None,
            r@.stubs.len() == 0,
            r@.reservations.len() == 0,
            r@.transactions.len() == 0,
    {
        AccountSession {
            active_clock_stub: None,
            active_reservation: None,
            active_transaction: None,
            stubs: Vec::new(),
            reservations: Vec::new(),
            transactions: Vec::new(),
            next_stub_id: 0,
            next_reservation_id: 0,
            next_transaction_id: 0,
        }
    }

    /// The clock stub of the current lock holder, if any.
    pub fn is_clocked_in(&self) -> (r: Option<ClockStub>)
        requires
            self@.wf(),
        ensures
            r == self@.active_stub(),
    {
        match self.active_clock_stub {
            None => None,
            Some(id) => {
                match find_stub(&self.stubs, id) {
                    Some(i) => {
                        proof {
                            let s = self@.stubs;
                            assert(has_stub(s, id));
                            let j = choose|j: int| 0 <= j < s.len() && s[j].id == id;
                            assert(s[j] == s[i as int]);
                        }
                        Some(self.stubs[i])
                    }
                    None => None,
                }
            }
        }
    }

    /// The reservation currently pre-empting the lock, if any.
    pub fn is_reserved(&self) -> (r: Option<Reservation>)
        requires
            self@.wf(),
        ensures
            r == self@.active_res(),
    {
        match self.active_reservation {
            None => None,
            Some(id) => {
                match find_reservation(&self.reservations, id) {
                    Some(i) => {
                        proof {
                            let s = self@.reservations;
                            assert(has_reservation(s, id));
                            let j = choose|j: int| 0 <= j < s.len() && s[j].id == id;
                            assert(s[j] == s[i as int]);
                        }
                        Some(self.reservations[i])
                    }
                    None => None,
                }
            }
        }
    }

    /// The in-flight round trip as seen by the lock holder: found only
    /// while somebody holds the lock.
    pub fn get_transaction(&self) -> (r: Option<Transaction>)
        requires
            self@.wf(),
        ensures
            match r {
                Some(t) => self@.current_transaction() == Some(t@),
                None => self@.current_transaction() is None,
            },
    {
        if self.is_clocked_in().is_none() {
            return None;
        }
        match self.active_transaction {
            None => None,
            Some(id) => {
                match find_transaction(&self.transactions, id) {
                    Some(i) => {
                        proof {
                            let s = self@.transactions;
                            assert(has_transaction(s, id));
                            let j = choose|j: int| 0 <= j < s.len() && s[j].id == id;
                            assert(s[j] == s[i as int]);
                        }
                        Some(self.transactions[i].clone_record())
                    }
                    None => None,
                }
            }
        }
    }
}

/// The stubs with the one carrying `id` closed at `now`.
pub open spec fn close_stubs(stubs: Seq<ClockStub>, id: i32, now: i64) -> Seq<ClockStub> {
    Seq::new(
        stubs.len(),
        |j: int|
            if stubs[j].id == id {
                ClockStub { end_time: Some(now), ..stubs[j] }
            } else {
                stubs[j]
            },
    )
}

/// A clock stub as created on a successful lock.
pub open spec fn fresh_stub(id: i32, user_id: i64, now: i64) -> ClockStub {
    ClockStub {
        id,
        start_time: now,
        end_time: None,
        user_id,
        last_interaction: now,
        afk_warn_flag: false,
    }
}

/// Whether an unlock request succeeds, and with which error it fails:
/// nobody holding the lock rejects the request; a caller who names
/// themselves must be the holder; a caller passing `None` (privileged
/// force-unlock) always succeeds against a held lock.
pub open spec fn unlock_outcome(s: SessionView, by_user: Option<i64>) -> Result<(), LockError> {
    match s.active_stub() {
        None => Err(LockError::NotLocked),
        Some(st) => match by_user {
            Some(u) => if st.user_id != u {
                Err(LockError::HeldByOther)
            } else {
                Ok(())
            },
            None => Ok(()),
        },
    }
}

/// The state after a successful unlock: the holder's stub is closed at
/// `now` and the account no longer points at a stub.
pub open spec fn unlock_step(s: SessionView, now: i64) -> SessionView {
    SessionView {
        active_clock_stub: None,
        stubs: close_stubs(s.stubs, s.active_stub().unwrap().id, now),
        ..s
    }
}

/// Whether a lock request succeeds, and with which error it fails: a
/// reservation owned by someone else pre-empts everyone; the holder
/// cannot lock twice; a different holder blocks the caller unless a
/// reservation (necessarily the caller's own) entitles the caller to
/// pre-empt.
pub open spec fn lock_outcome(s: SessionView, user_id: i64) -> Result<(), LockError> {
    let reserved_by_other = match s.active_res() {
        Some(res) => res.user_id != user_id,
        None => false,
    };
    if reserved_by_other {
        Err(LockError::AccountReserved)
    } else {
        match s.active_stub() {
            Some(st) => if st.user_id == user_id {
                Err(LockError::AlreadyLocked)
            } else if s.active_res() is None {
                Err(LockError::HeldByOther)
            } else {
                Ok(())
            },
            None => Ok(()),
        }
    }
}

/// The state after a successful lock: the prior holder's stub, if the
/// caller pre-empted one, is closed at `now` and attributed its own end
/// time; a fresh stub for the caller is appended and made active.
pub open spec fn lock_step(s: SessionView, user_id: i64, now: i64) -> SessionView {
    let stubs1 = match s.active_stub() {
        Some(st) => close_stubs(s.stubs, st.id, now),
        None => s.stubs,
    };
    SessionView {
        active_clock_stub: Some(s.next_stub_id),
        stubs: stubs1.push(fresh_stub(s.next_stub_id, user_id, now)),
        next_stub_id: (s.next_stub_id + 1) as i32,
        ..s
    }
}

/// Appending a fresh stub to a session that holds no open stub yields a
/// well-formed session whose active stub is the fresh one.
proof fn lemma_push_fresh_stub(s: SessionView, user_id: i64, now: i64)
    requires
        s.wf(),
        s.active_clock_stub is None,
        s.next_stub_id < i32::MAX,
    ensures
        ({
            let s2 = SessionView {
                active_clock_stub: Some(s.next_stub_id),
                stubs: s.stubs.push(fresh_stub(s.next_stub_id, user_id, now)),
                next_stub_id: (s.next_stub_id + 1) as i32,
                ..s
            };
            &&& s2.wf()
            &&& s2.active_stub() == Some(fresh_stub(s.next_stub_id, user_id, now))
        }),
{
    let fresh = fresh_stub(s.next_stub_id, user_id, now);
    let s2 = SessionView {
        active_clock_stub: Some(s.next_stub_id),
        stubs: s.stubs.push(fresh),
        next_stub_id: (s.next_stub_id + 1) as i32,
        ..s
    };
    let n = s.stubs.len() as int;
    assert(s2.stubs[n] == fresh);
    assert(forall|j: int| 0 <= j < n ==> s2.stubs[j] == s.stubs[j]);
    assert(has_stub(s2.stubs, s.next_stub_id));
    let j = choose|j: int| 0 <= j < s2.stubs.len() && s2.stubs[j].id == s.next_stub_id;
    assert(j == n);
    assert(s2.active_stub() == Some(fresh));
    assert(stub_with_id(s2.stubs, s.next_stub_id).is_open());
    assert forall|i: int, k: int|
        0 <= i < s2.stubs.len() && 0 <= k < s2.stubs.len() && i != k implies #[trigger] s2.stubs[i].id
        != #[trigger] s2.stubs[k].id by {
        if i < n && k < n {
            assert(s.stubs[i].id != s.stubs[k].id);
        }
    }
    assert forall|i: int|
        0 <= i < s2.stubs.len() implies 0 <= #[trigger] s2.stubs[i].id < s2.next_stub_id by {
        if i < n {
            assert(s2.stubs[i] == s.stubs[i]);
            assert(0 <= s.stubs[i].id < s.next_stub_id);
        }
    }
    assert(forall|i: int|
        0 <= i < n && (#[trigger] s2.stubs[i]).is_open() ==> s2.active_clock_stub == Some(
            s2.stubs[i].id,
        ));
    assert(s2.active_txn() == s.active_txn());
    assert(s2.wf());
}

impl AccountSession {
    /// Release the lock.  `by_user` names the requesting user; a
    /// privileged caller (admin force-unlock, AFK timeout) passes
    /// `None` and succeeds regardless of who holds the lock.
    pub fn unlock(&mut self, by_user: Option<i64>, now: i64) -> (r: Result<(), LockError>)
        requires
            old(self)@.wf(),
        ensures
            final(self)@.wf(),
            r == unlock_outcome(old(self)@, by_user),
            r is Ok ==> final(self)@ =~= unlock_step(old(self)@, now),
            r is Err ==> final(self)@ =~= old(self)@,
    {
        let id = match self.active_clock_stub {
            None => {
                return Err(LockError::NotLocked);
            }
            Some(id) => id,
        };
        let pos = match find_stub(&self.stubs, id) {
            Some(pos) => pos,
            None => {
                proof {
                    assert(false);
                }
                return Err(LockError::NotLocked);
            }
        };
        let stub = self.stubs[pos];
        proof {
            let s = self@.stubs;
            let j = choose|j: int| 0 <= j < s.len() && s[j].id == id;
            assert(s[j] == s[pos as int]);
        }
        if let Some(u) = by_user {
            if stub.user_id != u {
                return Err(LockError::HeldByOther);
            }
        }
        let mut closed = stub;
        closed.end_time = Some(now);
        self.stubs[pos] = closed;
        self.active_clock_stub = None;
        proof {
            let s0 = old(self)@;
            let s1 = self@;
            assert forall|j: int| 0 <= j < s1.stubs.len() implies s1.stubs[j] == close_stubs(
                s0.stubs,
                id,
                now,
            )[j] by {
                if j != pos as int {
                    assert(s0.stubs[j].id != id);
                }
            }
            assert(s1.stubs =~= close_stubs(s0.stubs, id, now));
            assert(s1 =~= unlock_step(s0, now));
            // well-formedness: ids and every other component are
            // unchanged, and no stub is left open
            assert(forall|j: int|
                0 <= j < s1.stubs.len() ==> #[trigger] s1.stubs[j].id == s0.stubs[j].id);
            assert forall|j: int|
                0 <= j < s1.stubs.len() && (#[trigger] s1.stubs[j]).is_open() implies false by {
                assert(s0.stubs[j].is_open());
                assert(s0.active_clock_stub == Some(s0.stubs[j].id));
                assert(j == pos as int);
            }
            assert(s1.active_txn() == s0.active_txn());
        }
        Ok(())
    }

    /// Take the lock for `user_id` at `now`.  A reservation owned by a
    /// different user blocks the attempt; a holder other than the
    /// caller blocks it too, unless an active reservation entitles the
    /// caller, in which case the prior holder is force-unlocked first
    /// (the forced unlock attributed to that holder, not the caller).
    pub fn lock(&mut self, user_id: i64, now: i64) -> (r: Result<(), LockError>)
        requires
            old(self)@.wf(),
            old(self).next_stub_id < i32::MAX,
        ensures
            final(self)@.wf(),
            r == lock_outcome(old(self)@, user_id),
            r is Ok ==> final(self)@ =~= lock_step(old(self)@, user_id, now),
            r is Err ==> final(self)@ =~= old(self)@,
    {
        let reservation = self.is_reserved();
        if let Some(res) = reservation {
            if res.user_id != user_id {
                return Err(LockError::AccountReserved);
            }
        }
        let clocked = self.is_clocked_in();
        if let Some(st) = clocked {
            if st.user_id == user_id {
                return Err(LockError::AlreadyLocked);
            }
            if reservation.is_none() {
                return Err(LockError::HeldByOther);
            }
            let forced = self.unlock(Some(st.user_id), now);
            proof {
                assert(forced is Ok);
            }
        }
        proof {
            lemma_push_fresh_stub(self@, user_id, now);
        }
        let id = self.next_stub_id;
        let stub = ClockStub {
            id,
            start_time: now,
            end_time: None,
            user_id,
            last_interaction: now,
            afk_warn_flag: false,
        };
        self.stubs.push(stub);
        self.active_clock_stub = Some(id);
        self.next_stub_id = id + 1;
        proof {
            assert(self@ =~= lock_step(old(self)@, user_id, now));
        }
        Ok(())
    }
}

/// Closing the active stub yields a well-formed session in which
/// nobody holds the lock and everything else is untouched.
proof fn lemma_close_active(s: SessionView, now: i64)
    requires
        s.wf(),
        s.active_stub() is Some,
    ensures
        unlock_step(s, now).wf(),
        unlock_step(s, now).active_stub() is None,
{
    let id = s.active_stub().unwrap().id;
    let s1 = unlock_step(s, now);
    assert(forall|j: int| 0 <= j < s1.stubs.len() ==> #[trigger] s1.stubs[j].id == s.stubs[j].id);
    assert forall|i: int, k: int|
        0 <= i < s1.stubs.len() && 0 <= k < s1.stubs.len() && i != k implies #[trigger] s1.stubs[i].id
        != #[trigger] s1.stubs[k].id by {
        assert(s.stubs[i].id != s.stubs[k].id);
    }
    assert forall|i: int|
        0 <= i < s1.stubs.len() implies 0 <= #[trigger] s1.stubs[i].id < s1.next_stub_id by {
        assert(0 <= s.stubs[i].id < s.next_stub_id);
    }
    let pos = choose|j: int| 0 <= j < s.stubs.len() && s.stubs[j].id == id;
    assert forall|j: int|
        0 <= j < s1.stubs.len() && (#[trigger] s1.stubs[j]).is_open() implies false by {
        assert(s.stubs[j].is_open());
        assert(s.active_clock_stub == Some(s.stubs[j].id));
        assert(s.stubs[j].id == id);
        assert(!s1.stubs[j].is_open());
    }
    assert(s1.active_txn() == s.active_txn());
}

/// Mutual exclusion.  With no reservation pre-empting the account, two
/// different users cannot both hold the lock: once one lock attempt
/// has succeeded, an attempt by any other user against the resulting
/// state fails with `HeldByOther`.
pub proof fn lemma_lock_mutual_exclusion(s: SessionView, u1: i64, u2: i64, now: i64)
    requires
        s.wf(),
        s.next_stub_id < i32::MAX,
        u1 != u2,
        s.active_res() is None,
        lock_outcome(s, u1) is Ok,
    ensures
        lock_outcome(lock_step(s, u1, now), u2) == Err::<(), LockError>(LockError::HeldByOther),
{
    assert(s.active_clock_stub is None);
    lemma_push_fresh_stub(s, u1, now);
    let s2 = lock_step(s, u1, now);
    assert(s2.active_res() is None);
    assert(s2.active_stub() == Some(fresh_stub(s.next_stub_id, u1, now)));
}

/// Re-locking is rejected: immediately after a successful lock by some
/// user, a second lock attempt by the same user fails with
/// `AlreadyLocked`.
pub proof fn lemma_lock_relock_same_user(s: SessionView, u: i64, now: i64)
    requires
        s.wf(),
        s.next_stub_id < i32::MAX,
        lock_outcome(s, u) is Ok,
    ensures
        lock_outcome(lock_step(s, u, now), u) == Err::<(), LockError>(LockError::AlreadyLocked),
{
    let s2 = lock_step(s, u, now);
    let fresh = fresh_stub(s.next_stub_id, u, now);
    if s.active_stub() is Some {
        lemma_close_active(s, now);
        let s_mid = unlock_step(s, now);
        lemma_push_fresh_stub(s_mid, u, now);
        let s2b = SessionView {
            active_clock_stub: Some(s_mid.next_stub_id),
            stubs: s_mid.stubs.push(fresh_stub(s_mid.next_stub_id, u, now)),
            next_stub_id: (s_mid.next_stub_id + 1) as i32,
            ..s_mid
        };
        assert(s2 =~= s2b);
        assert(s2.active_stub() == Some(fresh));
    } else {
        assert(s.active_clock_stub is None);
        lemma_push_fresh_stub(s, u, now);
        assert(s2.active_stub() == Some(fresh));
    }
    assert(s2.active_res() == s.active_res());
}

/// What an AFK tick reports to the caller.
#[derive(Clone, Copy, Debug, PartialEq, Eq, Structural)]
pub enum AfkEvent {
    /// Nothing to do this tick.
    NoAction,
    /// Prompt this user to confirm presence; the flag recording the
    /// warning has already been set.
    Warn { user_id: i64 },
}

/// An AFK warning is due: somebody holds the lock, no warning has been
/// issued for the current stretch of inactivity, and the last
/// qualifying activity lies more than `afk_warn_min` minutes in the
/// past.
pub open spec fn afk_warn_due(s: SessionView, now: i64, afk_warn_min: i64) -> bool {
    match s.active_stub() {
        Some(st) => !st.afk_warn_flag && now > st.last_interaction + afk_warn_min * 60,
        None => false,
    }
}

/// The stubs with the warning flag raised on the one carrying `id`.
pub open spec fn set_afk_flag(stubs: Seq<ClockStub>, id: i32) -> Seq<ClockStub> {
    Seq::new(
        stubs.len(),
        |j: int|
            if stubs[j].id == id {
                ClockStub { afk_warn_flag: true, ..stubs[j] }
            } else {
                stubs[j]
            },
    )
}

/// The state after an AFK tick that found a warning due.
pub open spec fn afk_warn_step(s: SessionView) -> SessionView {
    SessionView { stubs: set_afk_flag(s.stubs, s.active_stub().unwrap().id), ..s }
}

/// The stubs with activity refreshed at `now` on the one carrying `id`.
pub open spec fn refresh_activity(stubs: Seq<ClockStub>, id: i32, now: i64) -> Seq<ClockStub> {
    Seq::new(
        stubs.len(),
        |j: int|
            if stubs[j].id == id {
                ClockStub { last_interaction: now, afk_warn_flag: false, ..stubs[j] }
            } else {
                stubs[j]
            },
    )
}

/// The state after the holder confirmed presence at `now`.
pub open spec fn afk_confirm_step(s: SessionView, now: i64) -> SessionView {
    match s.active_stub() {
        Some(st) => SessionView { stubs: refresh_activity(s.stubs, st.id, now), ..s },
        None => s,
    }
}

impl AccountSession {
    /// One pass of the AFK check.  When the active session has been
    /// idle longer than `afk_warn_min` minutes and no warning is
    /// outstanding, the warning flag is raised -- before any prompt is
    /// delivered, so later ticks cannot issue duplicates -- and the
    /// caller is told to prompt the holder.
    pub fn afk_tick(&mut self, now: i64, afk_warn_min: i64) -> (r: AfkEvent)
        requires
            old(self)@.wf(),
        ensures
            final(self)@.wf(),
            afk_warn_due(old(self)@, now, afk_warn_min) ==> {
                &&& r == (AfkEvent::Warn { user_id: old(self)@.active_stub().unwrap().user_id })
                &&& final(self)@ =~= afk_warn_step(old(self)@)
            },
            !afk_warn_due(old(self)@, now, afk_warn_min) ==> {
                &&& r == AfkEvent::NoAction
                &&& final(self)@ =~= old(self)@
            },
    {
        let stub = match self.is_clocked_in() {
            None => {
                return AfkEvent::NoAction;
            }
            Some(st) => st,
        };
        if stub.afk_warn_flag {
            return AfkEvent::NoAction;
        }
        let idle_limit: i128 = stub.last_interaction as i128 + afk_warn_min as i128 * 60;
        if now as i128 <= idle_limit {
            return AfkEvent::NoAction;
        }
        let pos = match find_stub(&self.stubs, stub.id) {
            Some(pos) => pos,
            None => {
                proof {
                    assert(has_stub(self@.stubs, stub.id));
                    assert(false);
                }
                return AfkEvent::NoAction;
            }
        };
        proof {
            let s = self@.stubs;
            let j = choose|j: int| 0 <= j < s.len() && s[j].id == stub.id;
            assert(s[j] == s[pos as int]);
        }
        let mut warned = self.stubs[pos];
        warned.afk_warn_flag = true;
        self.stubs[pos] = warned;
        proof {
            let s0 = old(self)@;
            let s1 = self@;
            let id = stub.id;
            assert forall|j: int| 0 <= j < s1.stubs.len() implies s1.stubs[j] == set_afk_flag(
                s0.stubs,
                id,
            )[j] by {
                if j != pos as int {
                    assert(s0.stubs[j].id != id);
                }
            }
            assert(s1.stubs =~= set_afk_flag(s0.stubs, id));
            assert(s1 =~= afk_warn_step(s0));
            lemma_afk_flag_update_wf(s0, id);
        }
        AfkEvent::Warn { user_id: stub.user_id }
    }

    /// The holder confirmed presence at `now`: refresh the activity
    /// timestamp and clear any outstanding warning.  Without a holder
    /// this is a no-op.
    pub fn afk_confirm(&mut self, now: i64)
        requires
            old(self)@.wf(),
        ensures
            final(self)@.wf(),
            final(self)@ =~= afk_confirm_step(old(self)@, now),
    {
        let stub = match self.is_clocked_in() {
            None => {
                return ;
            }
            Some(st) => st,
        };
        let pos = match find_stub(&self.stubs, stub.id) {
            Some(pos) => pos,
            None => {
                proof {
                    assert(has_stub(self@.stubs, stub.id));
                    assert(false);
                }
                return ;
            }
        };
        proof {
            let s = self@.stubs;
            let j = choose|j: int| 0 <= j < s.len() && s[j].id == stub.id;
            assert(s[j] == s[pos as int]);
        }
        let mut refreshed = self.stubs[pos];
        refreshed.last_interaction = now;
        refreshed.afk_warn_flag = false;
        self.stubs[pos] = refreshed;
        proof {
            let s0 = old(self)@;
            let s1 = self@;
            let id = stub.id;
            assert forall|j: int| 0 <= j < s1.stubs.len() implies s1.stubs[j] == refresh_activity(
                s0.stubs,
                id,
                now,
            )[j] by {
                if j != pos as int {
                    assert(s0.stubs[j].id != id);
                }
            }
            assert(s1.stubs =~= refresh_activity(s0.stubs, id, now));
            assert(s1 =~= afk_confirm_step(s0, now));
            lemma_activity_update_wf(s0, id, now);
        }
    }
}

/// Raising the warning flag on the active stub preserves
/// well-formedness and keeps the same stub active.
proof fn lemma_afk_flag_update_wf(s: SessionView, id: i32)
    requires
        s.wf(),
        s.active_stub() is Some,
        s.active_stub().unwrap().id == id,
    ensures
        ({
            let s1 = SessionView { stubs: set_afk_flag(s.stubs, id), ..s };
            &&& s1.wf()
            &&& s1.active_stub() == Some(
                ClockStub { afk_warn_flag: true, ..s.active_stub().unwrap() },
            )
        }),
{
    let s1 = SessionView { stubs: set_afk_flag(s.stubs, id), ..s };
    lemma_stub_update_wf_common(s, s1.stubs);
    let pos = choose|j: int| 0 <= j < s.stubs.len() && s.stubs[j].id == id;
    let j = choose|j: int| 0 <= j < s1.stubs.len() && s1.stubs[j].id == id;
    assert(has_stub(s1.stubs, id));
    assert(s1.stubs[j].id == s1.stubs[pos].id);
    assert(j == pos);
    assert(s1.active_txn() == s.active_txn());
}

/// Refreshing activity on the active stub preserves well-formedness.
proof fn lemma_activity_update_wf(s: SessionView, id: i32, now: i64)
    requires
        s.wf(),
        s.active_stub() is Some,
        s.active_stub().unwrap().id == id,
    ensures
        ({
            let s1 = SessionView { stubs: refresh_activity(s.stubs, id, now), ..s };
            s1.wf()
        }),
{
    let s1 = SessionView { stubs: refresh_activity(s.stubs, id, now), ..s };
    lemma_stub_update_wf_common(s, s1.stubs);
    let pos = choose|j: int| 0 <= j < s.stubs.len() && s.stubs[j].id == id;
    let j = choose|j: int| 0 <= j < s1.stubs.len() && s1.stubs[j].id == id;
    assert(has_stub(s1.stubs, id));
    assert(s1.stubs[j].id == s1.stubs[pos].id);
    assert(j == pos);
    assert(s1.active_txn() == s.active_txn());
}

/// Shared argument for stub updates that keep id, owner and open
/// status of every stub: all stub-related well-formedness clauses
/// carry over.
proof fn lemma_stub_update_wf_common(s: SessionView, stubs1: Seq<ClockStub>)
    requires
        s.wf(),
        stubs1.len() == s.stubs.len(),
        forall|j: int| 0 <= j < s.stubs.len() ==> #[trigger] stubs1[j].id == s.stubs[j].id,
        forall|j: int|
            0 <= j < s.stubs.len() ==> (#[trigger] stubs1[j]).is_open() == s.stubs[j].is_open(),
    ensures
        forall|i: int, j: int|
            0 <= i < stubs1.len() && 0 <= j < stubs1.len() && i != j ==> #[trigger] stubs1[i].id
                != #[trigger] stubs1[j].id,
        forall|i: int| 0 <= i < stubs1.len() ==> 0 <= #[trigger] stubs1[i].id < s.next_stub_id,
        forall|i: int|
            0 <= i < stubs1.len() && (#[trigger] stubs1[i]).is_open() ==> s.active_clock_stub
                == Some(stubs1[i].id),
        match s.active_clock_stub {
            Some(id) => has_stub(stubs1, id) && stub_with_id(stubs1, id).is_open(),
            None => true,
        },
{
    assert forall|i: int, j: int|
        0 <= i < stubs1.len() && 0 <= j < stubs1.len() && i != j implies #[trigger] stubs1[i].id
        != #[trigger] stubs1[j].id by {
        assert(s.stubs[i].id != s.stubs[j].id);
    }
    assert forall|i: int|
        0 <= i < stubs1.len() implies 0 <= #[trigger] stubs1[i].id < s.next_stub_id by {
        assert(0 <= s.stubs[i].id < s.next_stub_id);
    }
    assert forall|i: int|
        0 <= i < stubs1.len() && (#[trigger] stubs1[i]).is_open() implies s.active_clock_stub
        == Some(stubs1[i].id) by {
        assert(s.stubs[i].is_open());
    }
    match s.active_clock_stub {
        Some(id) => {
            let pos = choose|j: int| 0 <= j < s.stubs.len() && s.stubs[j].id == id;
            assert(stubs1[pos].id == id);
            assert(has_stub(stubs1, id));
            let j = choose|j: int| 0 <= j < stubs1.len() && stubs1[j].id == id;
            assert(stubs1[j].id == stubs1[pos].id);
            assert(j == pos);
            assert(stub_with_id(stubs1, id).is_open());
        }
        None => {}
    }
}

/// An idle holder is warned exactly once.  The tick that issues the
/// warning raises the flag, and in the resulting state no further
/// warning is due -- at any later time and under any threshold --
/// until the holder confirms presence.
pub proof fn lemma_afk_warn_once(s: SessionView, now: i64, afk_warn_min: i64)
    requires
        s.wf(),
        afk_warn_due(s, now, afk_warn_min),
    ensures
        forall|now2: i64, m2: i64| !afk_warn_due(afk_warn_step(s), now2, m2),
{
    let st = s.active_stub().unwrap();
    lemma_afk_flag_update_wf(s, st.id);
    assert(afk_warn_step(s).active_stub() == Some(ClockStub { afk_warn_flag: true, ..st }));
}

impl Transaction {
    /// A field-for-field copy.
    pub fn clone_record(&self) -> (r: Transaction)
        ensures
            r@ == self@,
    {
        Transaction {
            id: self.id,
            clock_stub_id: self.clock_stub_id,
            buy_order_ids: clone_u64_vec(&self.buy_order_ids),
            buy_ready: self.buy_ready,
            buy_avg_price: self.buy_avg_price,
            sell_order_ids: clone_u64_vec(&self.sell_order_ids),
            sell_ready: self.sell_ready,
            sell_avg_price: self.sell_avg_price,
        }
    }
}

/// An element-for-element copy.
pub(crate) fn clone_u64_vec(v: &Vec<u64>) -> (r: Vec<u64>)
    ensures
        r@ == v@,
{
    let mut r: Vec<u64> = Vec::new();
    let mut i: usize = 0;
    while i < v.len()
        invariant
            i <= v@.len(),
            r@ == v@.take(i as int),
        decreases v@.len() - i,
    {
        r.push(v[i]);
        proof {
            assert(r@ =~= v@.take(i as int + 1));
        }
        i += 1;
    }
    proof {
        assert(v@.take(v@.len() as int) =~= v@);
    }
    r
}

} // verus!
