//! The reservation scheduler: claims to exclusive account access
//! during half-open time windows, slot enumeration for scheduling
//! suggestions, and the periodic tick that alerts owners, pre-empts the
//! lock when a window begins, and expires elapsed reservations.

use vstd::prelude::*;

use crate::model::Reservation;
use crate::session::{has_reservation, AccountSession, SessionView};

verus! {

/// One suggested slot: either free from the given instant on, or taken
/// by a reservation.
#[allow(non_camel_case_types)]
#[derive(Clone, Copy, Debug, PartialEq, Eq, Structural)]
pub enum TimeSlot {
    RESERVED { reservation: Reservation },
    OPEN(i64),
}

/// Some stored reservation window overlaps `[start, end)`.
pub open spec fn overlap_exists(rs: Seq<Reservation>, start: i64, end: i64) -> bool {
    exists|i: int| 0 <= i < rs.len() && (#[trigger] rs[i]).overlaps(start, end)
}

/// The state after a successful reservation: the new window is
/// appended unalerted.
pub open spec fn create_reservation_step(
    s: SessionView,
    start_time: i64,
    end_time: i64,
    user_id: i64,
) -> SessionView {
    SessionView {
        reservations: s.reservations.push(
            Reservation {
                id: s.next_reservation_id,
                start_time,
                end_time,
                alerted: false,
                user_id,
            },
        ),
        next_reservation_id: (s.next_reservation_id + 1) as i32,
        ..s
    }
}

/// Position of the reservation carrying `id` (meaningful under unique
/// ids when one exists).
pub open spec fn reservation_pos(rs: Seq<Reservation>, id: i32) -> int {
    choose|j: int| 0 <= j < rs.len() && rs[j].id == id
}

/// The state after cancelling `id`: the reservation is gone, and the
/// account's pre-emption pointer is cleared if it referenced it.
/// Cancelling an unknown id changes nothing.
pub open spec fn cancel_step(s: SessionView, id: i32) -> SessionView {
    if has_reservation(s.reservations, id) {
        SessionView {
            reservations: s.reservations.remove(reservation_pos(s.reservations, id)),
            active_reservation: if s.active_reservation == Some(id) {
                None
            } else {
                s.active_reservation
            },
            ..s
        }
    } else {
        s
    }
}

/// Chronological order on reservation windows.
pub open spec fn sorted_by_start(rs: Seq<Reservation>) -> bool {
    forall|i: int, j: int|
        0 <= i <= j < rs.len() ==> #[trigger] rs[i].start_time <= #[trigger] rs[j].start_time
}

/// Removing one reservation keeps the remaining ones well-formed with
/// respect to ids, non-overlap and the active pointer (which the
/// caller must have cleared if it referenced the removed one).
proof fn lemma_remove_reservation_wf(s: SessionView, p: int)
    requires
        s.wf(),
        0 <= p < s.reservations.len(),
    ensures
        ({
            let rs1 = s.reservations.remove(p);
            &&& forall|i: int, j: int|
                0 <= i < rs1.len() && 0 <= j < rs1.len() && i != j ==> #[trigger] rs1[i].id
                    != #[trigger] rs1[j].id
            &&& forall|i: int|
                0 <= i < rs1.len() ==> 0 <= #[trigger] rs1[i].id < s.next_reservation_id
            &&& forall|i: int, j: int|
                0 <= i < rs1.len() && 0 <= j < rs1.len() && i != j ==> !(#[trigger] rs1[i]).overlaps(
                    (#[trigger] rs1[j]).start_time,
                    rs1[j].end_time,
                )
            &&& forall|id: i32|
                has_reservation(rs1, id) ==> #[trigger] has_reservation(s.reservations, id)
        }),
{
    let rs1 = s.reservations.remove(p);
    assert forall|i: int, j: int|
        0 <= i < rs1.len() && 0 <= j < rs1.len() && i != j implies #[trigger] rs1[i].id
        != #[trigger] rs1[j].id by {
        let i0 = if i < p {
            i
        } else {
            i + 1
        };
        let j0 = if j < p {
            j
        } else {
            j + 1
        };
        assert(rs1[i] == s.reservations[i0]);
        assert(rs1[j] == s.reservations[j0]);
        assert(s.reservations[i0].id != s.reservations[j0].id);
    }
    assert forall|i: int|
        0 <= i < rs1.len() implies 0 <= #[trigger] rs1[i].id < s.next_reservation_id by {
        let i0 = if i < p {
            i
        } else {
            i + 1
        };
        assert(rs1[i] == s.reservations[i0]);
    }
    assert forall|i: int, j: int|
        0 <= i < rs1.len() && 0 <= j < rs1.len() && i != j implies !(#[trigger] rs1[i]).overlaps(
        (#[trigger] rs1[j]).start_time,
        rs1[j].end_time,
    ) by {
        let i0 = if i < p {
            i
        } else {
            i + 1
        };
        let j0 = if j < p {
            j
        } else {
            j + 1
        };
        assert(rs1[i] == s.reservations[i0]);
        assert(rs1[j] == s.reservations[j0]);
        assert(!s.reservations[i0].overlaps(
            s.reservations[j0].start_time,
            s.reservations[j0].end_time,
        ));
    }
    assert forall|id: i32| has_reservation(rs1, id) implies #[trigger] has_reservation(
        s.reservations,
        id,
    ) by {
        let i = choose|i: int| 0 <= i < rs1.len() && rs1[i].id == id;
        let i0 = if i < p {
            i
        } else {
            i + 1
        };
        assert(s.reservations[i0].id == id);
    }
}

impl AccountSession {
    /// Claim `[start_time, end_time)` for `user_id`.  Returns `false`
    /// without any change when an existing reservation overlaps the
    /// window -- availability is a signal here, not an error --
    /// and `true` after storing the reservation otherwise.
    pub fn create_reservation(&mut self, start_time: i64, end_time: i64, user_id: i64) -> (r:
        bool)
        requires
            old(self)@.wf(),
            old(self).next_reservation_id < i32::MAX,
        ensures
            final(self)@.wf(),
            r == !overlap_exists(old(self)@.reservations, start_time, end_time),
            r ==> final(self)@ =~= create_reservation_step(
                old(self)@,
                start_time,
                end_time,
                user_id,
            ),
            !r ==> final(self)@ =~= old(self)@,
    {
        let mut i: usize = 0;
        while i < self.reservations.len()
            invariant
                self == old(self),
                old(self)@.wf(),
                i <= self.reservations@.len(),
                forall|j: int|
                    0 <= j < i ==> !(#[trigger] self.reservations@[j]).overlaps(
                        start_time,
                        end_time,
                    ),
            decreases self.reservations@.len() - i,
        {
            let res = self.reservations[i];
            if res.start_time < end_time && res.end_time > start_time {
                return false;
            }
            i += 1;
        }
        let id = self.next_reservation_id;
        let fresh = Reservation { id, start_time, end_time, alerted: false, user_id };
        self.reservations.push(fresh);
        self.next_reservation_id = id + 1;
        proof {
            let s0 = old(self)@;
            let s1 = self@;
            let n = s0.reservations.len() as int;
            assert(s1 =~= create_reservation_step(s0, start_time, end_time, user_id));
            assert(forall|j: int| 0 <= j < n ==> s1.reservations[j] == s0.reservations[j]);
            assert forall|i2: int, j2: int|
                0 <= i2 < s1.reservations.len() && 0 <= j2 < s1.reservations.len() && i2
                    != j2 implies #[trigger] s1.reservations[i2].id
                != #[trigger] s1.reservations[j2].id by {
                if i2 < n && j2 < n {
                    assert(s0.reservations[i2].id != s0.reservations[j2].id);
                } else if i2 < n {
                    assert(0 <= s0.reservations[i2].id < s0.next_reservation_id);
                } else if j2 < n {
                    assert(0 <= s0.reservations[j2].id < s0.next_reservation_id);
                }
            }
            assert forall|i2: int|
                0 <= i2 < s1.reservations.len() implies 0 <= #[trigger] s1.reservations[i2].id
                < s1.next_reservation_id by {
                if i2 < n {
                    assert(0 <= s0.reservations[i2].id < s0.next_reservation_id);
                }
            }
            assert forall|i2: int, j2: int|
                0 <= i2 < s1.reservations.len() && 0 <= j2 < s1.reservations.len() && i2
                    != j2 implies !(#[trigger] s1.reservations[i2]).overlaps(
                (#[trigger] s1.reservations[j2]).start_time,
                s1.reservations[j2].end_time,
            ) by {
                if i2 < n && j2 < n {
                    assert(!s0.reservations[i2].overlaps(
                        s0.reservations[j2].start_time,
                        s0.reservations[j2].end_time,
                    ));
                } else if i2 < n && j2 == n {
                    assert(!s0.reservations[i2].overlaps(start_time, end_time));
                } else if i2 == n && j2 < n {
                    assert(!s0.reservations[j2].overlaps(start_time, end_time));
                }
            }
            match s1.active_reservation {
                Some(rid) => {
                    let p = choose|j: int|
                        0 <= j < s0.reservations.len() && s0.reservations[j].id == rid;
                    assert(s1.reservations[p].id == rid);
                    assert(has_reservation(s1.reservations, rid));
                }
                None => {}
            }
            assert(s1.active_stub() == s0.active_stub());
            assert(s1.active_txn() == s0.active_txn());
            assert(s1.wf());
        }
        true
    }

    /// Delete the reservation carrying `id` (the caller is expected to
    /// have verified ownership).  If the account's pre-emption pointer
    /// referenced it, the pointer is cleared with it.  An unknown id
    /// changes nothing.
    pub fn cancel(&mut self, reservation_id: i32)
        requires
            old(self)@.wf(),
        ensures
            final(self)@.wf(),
            final(self)@ =~= cancel_step(old(self)@, reservation_id),
    {
        let pos = match crate::session::find_reservation(&self.reservations, reservation_id) {
            Some(pos) => pos,
            None => {
                return ;
            }
        };
        proof {
            let rs = self@.reservations;
            let j = choose|j: int| 0 <= j < rs.len() && rs[j].id == reservation_id;
            assert(rs[j].id == rs[pos as int].id);
            assert(j == pos as int);
        }
        self.reservations.remove(pos);
        if let Some(active) = self.active_reservation {
            if active == reservation_id {
                self.active_reservation = None;
            }
        }
        proof {
            let s0 = old(self)@;
            let s1 = self@;
            assert(s1 =~= cancel_step(s0, reservation_id));
            lemma_remove_reservation_wf(s0, pos as int);
            match s1.active_reservation {
                Some(rid) => {
                    assert(rid != reservation_id);
                    let p = choose|j: int|
                        0 <= j < s0.reservations.len() && s0.reservations[j].id == rid;
                    let p1 = if p < pos as int {
                        p
                    } else {
                        p - 1
                    };
                    assert(p != pos as int);
                    assert(s1.reservations[p1] == s0.reservations[p]);
                    assert(has_reservation(s1.reservations, rid));
                }
                None => {}
            }
            assert(s1.active_stub() == s0.active_stub());
            assert(s1.active_txn() == s0.active_txn());
            assert(s1.wf());
        }
    }

    /// All reservations, chronologically by window start.
    pub fn pull_reservations(&self) -> (r: Vec<Reservation>)
        requires
            self@.wf(),
        ensures
            r@.to_multiset() == self@.reservations.to_multiset(),
            sorted_by_start(r@),
    {
        broadcast use vstd::seq_lib::group_to_multiset_ensures;

        let mut r: Vec<Reservation> = Vec::new();
        let mut i: usize = 0;
        proof {
            assert(self@.reservations.take(0) =~= Seq::<Reservation>::empty());
            assert(Seq::<Reservation>::empty().to_multiset() =~= r@.to_multiset());
        }
        while i < self.reservations.len()
            invariant
                i <= self.reservations@.len(),
                r@.to_multiset() == self.reservations@.take(i as int).to_multiset(),
                sorted_by_start(r@),
            decreases self.reservations@.len() - i,
        {
            broadcast use vstd::seq_lib::group_to_multiset_ensures;

            let x = self.reservations[i];
            let mut p: usize = 0;
            while p < r.len() && r[p].start_time <= x.start_time
                invariant
                    p <= r@.len(),
                    forall|q: int| 0 <= q < p ==> #[trigger] r@[q].start_time <= x.start_time,
                    sorted_by_start(r@),
                decreases r@.len() - p,
            {
                p += 1;
            }
            let ghost r_old = r@;
            r.insert(p, x);
            proof {
                let rnew = r@;
                assert(rnew == r_old.insert(p as int, x));
                // order is kept on both sides of the insertion point
                assert forall|a: int, b: int|
                    0 <= a <= b < rnew.len() implies #[trigger] rnew[a].start_time
                    <= #[trigger] rnew[b].start_time by {
                    let a0 = if a <= p as int {
                        a
                    } else {
                        a - 1
                    };
                    let b0 = if b < p as int {
                        b
                    } else {
                        b - 1
                    };
                    if a == p as int && b == p as int {
                    } else if a == p as int {
                        // x against a later element, which the scan
                        // proved is strictly beyond the prefix
                        assert(rnew[b] == r_old[b - 1]);
                        if p < r_old.len() {
                            assert(r_old[p as int].start_time > x.start_time);
                            assert(r_old[p as int].start_time <= r_old[b - 1].start_time);
                        }
                    } else if b == p as int {
                        assert(rnew[a] == r_old[a]);
                        assert(r_old[a].start_time <= x.start_time);
                    } else {
                        assert(rnew[a] == r_old[a0]);
                        assert(rnew[b] == r_old[b0]);
                        assert(r_old[a0].start_time <= r_old[b0].start_time);
                    }
                }
                // the inserted sequence carries the same elements plus x
                assert(rnew.remove(p as int) =~= r_old);
                assert(rnew.remove(p as int).to_multiset() =~= rnew.to_multiset().remove(x));
                assert(rnew.to_multiset().contains(x));
                assert(rnew.to_multiset() =~= r_old.to_multiset().insert(x));
                assert(self.reservations@.take(i as int + 1) =~= self.reservations@.take(
                    i as int,
                ).push(x));
                assert(self.reservations@.take(i as int).push(x).to_multiset()
                    =~= self.reservations@.take(i as int).to_multiset().insert(x));
            }
            i += 1;
        }
        proof {
            assert(self.reservations@.take(self.reservations@.len() as int)
                =~= self.reservations@);
        }
        r
    }
}

/// Some stored reservation covers the instant `t`.
pub open spec fn covering(rs: Seq<Reservation>, t: i64) -> bool {
    exists|i: int| 0 <= i < rs.len() && (#[trigger] rs[i]).covers(t)
}

/// The reservation covering `t` (unique while windows never overlap).
pub open spec fn covering_res(rs: Seq<Reservation>, t: i64) -> Reservation {
    rs[choose|i: int| 0 <= i < rs.len() && (#[trigger] rs[i]).covers(t)]
}

/// What the slot starting at `t` looks like.
pub open spec fn spec_slot(rs: Seq<Reservation>, t: i64) -> TimeSlot {
    if covering(rs, t) {
        TimeSlot::RESERVED { reservation: covering_res(rs, t) }
    } else {
        TimeSlot::OPEN(t)
    }
}

/// Slot width in seconds.
pub open spec fn slot_step(interval_min: i64) -> int {
    interval_min * 60
}

/// Where slot enumeration starts: the given instant, or the current
/// time truncated to the slot width.
pub open spec fn slot_origin(after: Option<i64>, now: i64, interval_min: i64) -> int {
    match after {
        Some(t) => t as int,
        None => now - (now as int % slot_step(interval_min)),
    }
}

/// How many slots fill the two-day horizon.
pub open spec fn slot_count(interval_min: i64) -> int {
    (172800 + slot_step(interval_min) - 1) / slot_step(interval_min)
}

/// Position of the first reservation covering the instant `t`.
fn find_covering(rs: &Vec<Reservation>, t: i64) -> (r: Option<usize>)
    ensures
        match r {
            Some(i) => i < rs@.len() && rs@[i as int].covers(t),
            None => !covering(rs@, t),
        },
{
    let mut i: usize = 0;
    while i < rs.len()
        invariant
            i <= rs@.len(),
            forall|j: int| 0 <= j < i ==> !(#[trigger] rs@[j]).covers(t),
        decreases rs@.len() - i,
    {
        let res = rs[i];
        if res.start_time <= t && t < res.end_time {
            return Some(i);
        }
        i += 1;
    }
    None
}

/// Non-overlapping windows cover an instant at most once.
proof fn lemma_covering_unique(s: SessionView, t: i64, i: int, j: int)
    requires
        s.wf(),
        0 <= i < s.reservations.len(),
        0 <= j < s.reservations.len(),
        s.reservations[i].covers(t),
        s.reservations[j].covers(t),
    ensures
        i == j,
{
    if i != j {
        assert(!s.reservations[i].overlaps(
            s.reservations[j].start_time,
            s.reservations[j].end_time,
        ));
    }
}

impl AccountSession {
    /// Fixed-width slots over a two-day horizon, starting from `after`
    /// (or from `now` truncated to the slot width), each either open
    /// or already taken by a reservation.  Used for scheduling
    /// suggestions only; `create_reservation` alone is authoritative
    /// for conflicts.
    pub fn open_time_slots(&self, after: Option<i64>, now: i64, interval_min: i64) -> (r: Vec<
        TimeSlot,
    >)
        requires
            self@.wf(),
            1 <= interval_min <= 1440,
            0 <= now <= 200_000_000_000,
            match after {
                Some(t) => 0 <= t <= 200_000_000_000,
                None => true,
            },
        ensures
            r@.len() == slot_count(interval_min),
            forall|k: int|
                0 <= k < r@.len() ==> r@[k] == spec_slot(
                    self@.reservations,
                    (slot_origin(after, now, interval_min) + k * slot_step(interval_min)) as i64,
                ),
    {
        let step: i64 = interval_min * 60;
        let origin: i64 = match after {
            Some(t) => t,
            None => {
                let rem: u64 = (now as u64) % (step as u64);
                proof {
                    assert(rem <= now as u64) by (nonlinear_arith)
                        requires
                            rem == (now as u64) as int % (step as u64) as int,
                            0 < (step as u64) as int,
                            0 <= (now as u64) as int,
                    ;
                }
                now - rem as i64
            }
        };
        let count_i64: i64 = (172800 + step - 1) / step;
        proof {
            assert(1 <= count_i64 <= 2880) by (nonlinear_arith)
                requires
                    60 <= step <= 86400,
                    count_i64 == (172800 + step as int - 1) / (step as int),
            ;
        }
        let count: usize = count_i64 as usize;
        let mut r: Vec<TimeSlot> = Vec::new();
        let mut k: usize = 0;
        while k < count
            invariant
                self@.wf(),
                1 <= interval_min <= 1440,
                step == slot_step(interval_min),
                0 <= origin <= 200_000_000_000,
                origin == slot_origin(after, now, interval_min),
                count == slot_count(interval_min),
                count <= 2880,
                k <= count,
                r@.len() == k,
                forall|q: int|
                    0 <= q < k ==> r@[q] == spec_slot(
                        self@.reservations,
                        (origin + q * step) as i64,
                    ),
            decreases count - k,
        {
            proof {
                assert(0 <= k * step <= 2880 * 86400) by (nonlinear_arith)
                    requires
                        0 <= k < 2880,
                        0 < step <= 86400,
                ;
            }
            let t: i64 = origin + (k as i64) * step;
            let found = find_covering(&self.reservations, t);
            match found {
                Some(fi) => {
                    proof {
                        assert(covering(self@.reservations, t));
                        let c = choose|c: int|
                            0 <= c < self@.reservations.len() && (#[trigger] self@.reservations[c]).covers(
                                t,
                            );
                        lemma_covering_unique(self@, t, c, fi as int);
                    }
                    r.push(TimeSlot::RESERVED { reservation: self.reservations[fi] });
                }
                None => {
                    proof {
                        assert(!covering(self@.reservations, t));
                    }
                    r.push(TimeSlot::OPEN(t));
                }
            }
            k += 1;
        }
        r
    }
}

/// What a reservation tick reports to the caller.
#[derive(Clone, Copy, Debug, PartialEq, Eq, Structural)]
pub enum ReservationTickEvent {
    /// No notification owed this tick.
    NoAlert,
    /// Notify this user that their reservation is near; the flag
    /// recording the notification has already been set.
    Alert { user_id: i64, start_time: i64 },
}

/// Position of the chronologically next reservation: the first one
/// with the smallest window start.
pub open spec fn first_min_pos(rs: Seq<Reservation>) -> int
    decreases rs.len(),
{
    if rs.len() <= 1 {
        0
    } else {
        let q = first_min_pos(rs.drop_last());
        if rs[rs.len() - 1].start_time < rs[q].start_time {
            rs.len() - 1
        } else {
            q
        }
    }
}

/// `first_min_pos` is in range, minimal, and first among the minima.
proof fn lemma_first_min_props(rs: Seq<Reservation>)
    requires
        rs.len() > 0,
    ensures
        ({
            let p = first_min_pos(rs);
            &&& 0 <= p < rs.len()
            &&& forall|j: int|
                0 <= j < rs.len() ==> rs[p].start_time <= (#[trigger] rs[j]).start_time
            &&& forall|j: int| 0 <= j < p ==> (#[trigger] rs[j]).start_time > rs[p].start_time
        }),
    decreases rs.len(),
{
    if rs.len() > 1 {
        let sub = rs.drop_last();
        lemma_first_min_props(sub);
        let q = first_min_pos(sub);
        assert(forall|j: int| 0 <= j < sub.len() ==> sub[j] == rs[j]);
        let n = rs.len() - 1;
        let p = first_min_pos(rs);
        assert forall|j: int|
            0 <= j < rs.len() implies rs[p].start_time <= (#[trigger] rs[j]).start_time by {
            if j < n {
                assert(sub[q].start_time <= sub[j].start_time);
            }
        }
        assert forall|j: int|
            0 <= j < p implies (#[trigger] rs[j]).start_time > rs[p].start_time by {
            if p == n {
                assert(sub[q].start_time <= sub[j].start_time);
            } else {
                assert(sub[j].start_time > sub[q].start_time);
            }
        }
    }
}

/// An index that is minimal and first among the minima is
/// `first_min_pos`.
proof fn lemma_first_min_unique(rs: Seq<Reservation>, i: int)
    requires
        0 <= i < rs.len(),
        forall|j: int| 0 <= j < rs.len() ==> rs[i].start_time <= #[trigger] rs[j].start_time,
        forall|j: int| 0 <= j < i ==> #[trigger] rs[j].start_time > rs[i].start_time,
    ensures
        first_min_pos(rs) == i,
{
    lemma_first_min_props(rs);
    let c = first_min_pos(rs);
    if c < i {
        assert(rs[c].start_time > rs[i].start_time);
        assert(rs[c].start_time <= rs[i].start_time);
    }
    if c > i {
        assert(rs[i].start_time > rs[c].start_time);
        assert(rs[i].start_time <= rs[c].start_time);
    }
}

/// The next reservation's owner is owed an alert: the notification has
/// not fired yet and the alert lead has been reached.
pub open spec fn tick_alert_due(s: SessionView, now: i64, alert_lead_min: i64) -> bool {
    s.reservations.len() > 0 && {
        let r = s.reservations[first_min_pos(s.reservations)];
        !r.alerted && now >= r.start_time - alert_lead_min * 60
    }
}

/// What a reservation tick reports.
pub open spec fn tick_event(s: SessionView, now: i64, alert_lead_min: i64) -> ReservationTickEvent {
    if tick_alert_due(s, now, alert_lead_min) {
        let r = s.reservations[first_min_pos(s.reservations)];
        ReservationTickEvent::Alert { user_id: r.user_id, start_time: r.start_time }
    } else {
        ReservationTickEvent::NoAlert
    }
}

/// The state after a reservation tick.  An owed alert marks the next
/// reservation alerted.  Inside `[start, start + grace)` the account's
/// pre-emption pointer is set to that reservation (idempotently); once
/// the grace period has elapsed the pointer is cleared and the
/// reservation deleted.
pub open spec fn tick_step(
    s: SessionView,
    now: i64,
    alert_lead_min: i64,
    lock_grace_min: i64,
) -> SessionView {
    if s.reservations.len() == 0 {
        s
    } else {
        let p = first_min_pos(s.reservations);
        let r0 = s.reservations[p];
        let rs1 = if tick_alert_due(s, now, alert_lead_min) {
            s.reservations.update(p, Reservation { alerted: true, ..r0 })
        } else {
            s.reservations
        };
        if r0.start_time <= now && now < r0.start_time + lock_grace_min * 60 {
            SessionView { active_reservation: Some(r0.id), reservations: rs1, ..s }
        } else if now >= r0.start_time + lock_grace_min * 60 {
            SessionView { active_reservation: None, reservations: rs1.remove(p), ..s }
        } else {
            SessionView { reservations: rs1, ..s }
        }
    }
}

/// Marking one reservation alerted leaves the session well-formed:
/// ids, windows and everything else are untouched.
proof fn lemma_alert_update_wf(s: SessionView, p: int)
    requires
        s.wf(),
        0 <= p < s.reservations.len(),
    ensures
        ({
            let rs1 = s.reservations.update(
                p,
                Reservation { alerted: true, ..s.reservations[p] },
            );
            SessionView { reservations: rs1, ..s }.wf()
        }),
{
    let rs1 = s.reservations.update(p, Reservation { alerted: true, ..s.reservations[p] });
    let s1 = SessionView { reservations: rs1, ..s };
    assert(forall|j: int| 0 <= j < rs1.len() ==> #[trigger] rs1[j].id == s.reservations[j].id);
    assert forall|i: int, j: int|
        0 <= i < rs1.len() && 0 <= j < rs1.len() && i != j implies #[trigger] rs1[i].id
        != #[trigger] rs1[j].id by {
        assert(s.reservations[i].id != s.reservations[j].id);
    }
    assert forall|i: int|
        0 <= i < rs1.len() implies 0 <= #[trigger] rs1[i].id < s.next_reservation_id by {
        assert(0 <= s.reservations[i].id < s.next_reservation_id);
    }
    assert forall|i: int, j: int|
        0 <= i < rs1.len() && 0 <= j < rs1.len() && i != j implies !(#[trigger] rs1[i]).overlaps(
        (#[trigger] rs1[j]).start_time,
        rs1[j].end_time,
    ) by {
        assert(!s.reservations[i].overlaps(
            s.reservations[j].start_time,
            s.reservations[j].end_time,
        ));
        assert(rs1[i].start_time == s.reservations[i].start_time);
        assert(rs1[i].end_time == s.reservations[i].end_time);
        assert(rs1[j].start_time == s.reservations[j].start_time);
        assert(rs1[j].end_time == s.reservations[j].end_time);
    }
    match s.active_reservation {
        Some(rid) => {
            let q = choose|j: int| 0 <= j < s.reservations.len() && s.reservations[j].id == rid;
            assert(rs1[q].id == rid);
            assert(has_reservation(rs1, rid));
        }
        None => {}
    }
    assert(s1.active_stub() == s.active_stub());
    assert(s1.active_txn() == s.active_txn());
}

impl AccountSession {
    /// One pass of the reservation scheduler.  With no reservations it
    /// does nothing.  Otherwise it considers the chronologically next
    /// reservation: an owed alert is recorded (the flag prevents a
    /// second one) and reported for the caller to deliver; inside the
    /// window's grace period the account's pre-emption pointer is set;
    /// once the grace period has elapsed the pointer is cleared and the
    /// reservation deleted.
    pub fn reservation_tick(&mut self, now: i64, alert_lead_min: i64, lock_grace_min: i64) -> (r:
        ReservationTickEvent)
        requires
            old(self)@.wf(),
        ensures
            final(self)@.wf(),
            r == tick_event(old(self)@, now, alert_lead_min),
            final(self)@ =~= tick_step(old(self)@, now, alert_lead_min, lock_grace_min),
    {
        if self.reservations.len() == 0 {
            return ReservationTickEvent::NoAlert;
        }
        let mut best: usize = 0;
        let mut i: usize = 1;
        while i < self.reservations.len()
            invariant
                self == old(self),
                self.reservations@.len() > 0,
                best < i,
                i <= self.reservations@.len(),
                forall|j: int|
                    0 <= j < i ==> self.reservations@[best as int].start_time
                        <= (#[trigger] self.reservations@[j]).start_time,
                forall|j: int|
                    0 <= j < best ==> (#[trigger] self.reservations@[j]).start_time
                        > self.reservations@[best as int].start_time,
            decreases self.reservations@.len() - i,
        {
            if self.reservations[i].start_time < self.reservations[best].start_time {
                best = i;
            }
            i += 1;
        }
        proof {
            lemma_first_min_unique(self@.reservations, best as int);
        }
        let r0 = self.reservations[best];
        let alert_due = !r0.alerted && (now as i128) >= (r0.start_time as i128) - (
        alert_lead_min as i128) * 60;
        let event = if alert_due {
            let mut upd = r0;
            upd.alerted = true;
            self.reservations[best] = upd;
            ReservationTickEvent::Alert { user_id: r0.user_id, start_time: r0.start_time }
        } else {
            ReservationTickEvent::NoAlert
        };
        proof {
            assert(alert_due == tick_alert_due(old(self)@, now, alert_lead_min));
            assert(event == tick_event(old(self)@, now, alert_lead_min));
            lemma_alert_update_wf(old(self)@, best as int);
            if alert_due {
                assert(self@.reservations =~= old(self)@.reservations.update(
                    best as int,
                    Reservation { alerted: true, ..r0 },
                ));
            }
            assert(self@.wf());
        }
        let ghost s_mid = self@;
        let start = r0.start_time as i128;
        let lock_end = start + (lock_grace_min as i128) * 60;
        if start <= now as i128 && (now as i128) < lock_end {
            self.active_reservation = Some(r0.id);
            proof {
                assert(s_mid.reservations[best as int].id == r0.id);
                assert(has_reservation(self@.reservations, r0.id));
                assert(self@.active_stub() == s_mid.active_stub());
                assert(self@.active_txn() == s_mid.active_txn());
                assert(self@.wf());
                assert(self@ =~= tick_step(old(self)@, now, alert_lead_min, lock_grace_min));
            }
        } else if (now as i128) >= lock_end {
            self.active_reservation = None;
            self.reservations.remove(best);
            proof {
                lemma_remove_reservation_wf(s_mid, best as int);
                assert(self@.reservations =~= s_mid.reservations.remove(best as int));
                assert(self@.active_stub() == s_mid.active_stub());
                assert(self@.active_txn() == s_mid.active_txn());
                assert(self@.wf());
                assert(self@ =~= tick_step(old(self)@, now, alert_lead_min, lock_grace_min));
            }
        } else {
            proof {
                assert(self@ =~= tick_step(old(self)@, now, alert_lead_min, lock_grace_min));
            }
        }
        event
    }
}

/// A reservation tick is idempotent while the next reservation has not
/// expired: run again at the same instant against the state it
/// produced, it changes nothing and raises no further alert (the
/// alerted flag prevents a duplicate notification, and re-pointing the
/// account at the same reservation is a no-op).
pub proof fn lemma_reservation_tick_idempotent(
    s: SessionView,
    now: i64,
    alert_lead_min: i64,
    lock_grace_min: i64,
)
    requires
        s.wf(),
        s.reservations.len() > 0 ==> now < s.reservations[first_min_pos(
            s.reservations,
        )].start_time + lock_grace_min * 60,
    ensures
        tick_event(
            tick_step(s, now, alert_lead_min, lock_grace_min),
            now,
            alert_lead_min,
        ) == ReservationTickEvent::NoAlert,
        tick_step(
            tick_step(s, now, alert_lead_min, lock_grace_min),
            now,
            alert_lead_min,
            lock_grace_min,
        ) =~= tick_step(s, now, alert_lead_min, lock_grace_min),
{
    let s1 = tick_step(s, now, alert_lead_min, lock_grace_min);
    if s.reservations.len() == 0 {
        assert(s1 =~= s);
    } else {
        lemma_first_min_props(s.reservations);
        let p = first_min_pos(s.reservations);
        let r0 = s.reservations[p];
        let rs1 = s1.reservations;
        assert(rs1.len() == s.reservations.len());
        assert forall|j: int|
            0 <= j < rs1.len() implies (#[trigger] rs1[j]).start_time
            == s.reservations[j].start_time by {}
        assert forall|j: int|
            0 <= j < rs1.len() implies rs1[p].start_time <= (#[trigger] rs1[j]).start_time by {
            assert(r0.start_time <= s.reservations[j].start_time);
        }
        assert forall|j: int|
            0 <= j < p implies (#[trigger] rs1[j]).start_time > rs1[p].start_time by {
            assert(s.reservations[j].start_time > r0.start_time);
        }
        assert(0 <= p < rs1.len());
        lemma_first_min_unique(rs1, p);
        let r1 = rs1[p];
        assert(r1.start_time == r0.start_time);
        assert(r1.id == r0.id);
        if tick_alert_due(s, now, alert_lead_min) {
            assert(r1.alerted);
        }
        assert(!tick_alert_due(s1, now, alert_lead_min));
        assert(tick_event(s1, now, alert_lead_min) == ReservationTickEvent::NoAlert);
        let s2 = tick_step(s1, now, alert_lead_min, lock_grace_min);
        if r0.start_time <= now && now < r0.start_time + lock_grace_min * 60 {
            assert(s1.active_reservation == Some(r0.id));
            assert(s2 =~= s1);
        } else {
            assert(s2 =~= s1);
        }
    }
}

} // verus!
