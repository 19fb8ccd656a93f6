use tradebot_core::schedule::{ReservationTickEvent, TimeSlot};
use tradebot_core::session::AccountSession;

// 10:00, 10:30, 10:45, 11:00, 11:30 on some day, in seconds.
const T_10_00: i64 = 36000;
const T_10_30: i64 = 37800;
const T_10_45: i64 = 38700;
const T_11_00: i64 = 39600;
const T_11_30: i64 = 41400;

#[test]
fn overlapping_reservation_is_refused() {
    let mut s = AccountSession::new();
    assert!(s.create_reservation(T_10_00, T_11_00, 1));
    // contained in the first window
    assert!(!s.create_reservation(T_10_30, T_10_45, 2));
    // touching windows do not overlap
    assert!(s.create_reservation(T_11_00, T_11_30, 2));
    assert_eq!(s.reservations.len(), 2);
}

#[test]
fn partial_overlap_is_refused_both_ways() {
    let mut s = AccountSession::new();
    assert!(s.create_reservation(T_10_30, T_11_00, 1));
    assert!(!s.create_reservation(T_10_00, T_10_45, 2));
    assert!(!s.create_reservation(T_10_45, T_11_30, 2));
}

#[test]
fn cancel_removes_the_reservation() {
    let mut s = AccountSession::new();
    assert!(s.create_reservation(T_10_00, T_11_00, 1));
    let id = s.reservations[0].id;
    s.cancel(id);
    assert!(s.reservations.is_empty());
    // the window is free again
    assert!(s.create_reservation(T_10_30, T_10_45, 2));
}

#[test]
fn pull_reservations_sorts_by_start() {
    let mut s = AccountSession::new();
    assert!(s.create_reservation(T_11_00, T_11_30, 1));
    assert!(s.create_reservation(T_10_00, T_10_30, 2));
    assert!(s.create_reservation(T_10_30, T_10_45, 3));
    let sorted = s.pull_reservations();
    let starts: Vec<i64> = sorted.iter().map(|r| r.start_time).collect();
    assert_eq!(starts, vec![T_10_00, T_10_30, T_11_00]);
}

#[test]
fn open_time_slots_marks_taken_windows() {
    let mut s = AccountSession::new();
    assert!(s.create_reservation(T_10_30, T_11_00, 5));
    // 15-minute slots from 10:00; two days of them
    let slots = s.open_time_slots(Some(T_10_00), T_10_00, 15);
    assert_eq!(slots.len(), 192);
    match slots[0] {
        TimeSlot::OPEN(t) => assert_eq!(t, T_10_00),
        TimeSlot::RESERVED { .. } => panic!("slot at 10:00 should be open"),
    }
    match slots[2] {
        TimeSlot::RESERVED { reservation } => {
            assert_eq!(reservation.user_id, 5);
            assert_eq!(reservation.start_time, T_10_30);
        }
        TimeSlot::OPEN(_) => panic!("slot at 10:30 should be reserved"),
    }
    match slots[4] {
        TimeSlot::OPEN(t) => assert_eq!(t, T_11_00),
        TimeSlot::RESERVED { .. } => panic!("slot at 11:00 should be open"),
    }
}

#[test]
fn open_time_slots_truncates_now_to_the_interval() {
    let s = AccountSession::new();
    // 10:07 truncates to 10:00
    let slots = s.open_time_slots(None, T_10_00 + 420, 15);
    match slots[0] {
        TimeSlot::OPEN(t) => assert_eq!(t, T_10_00),
        TimeSlot::RESERVED { .. } => panic!("first slot should be open"),
    }
}

#[test]
fn tick_without_reservations_is_a_no_op() {
    let mut s = AccountSession::new();
    assert_eq!(s.reservation_tick(T_10_00, 15, 15), ReservationTickEvent::NoAlert);
    assert_eq!(s.active_reservation, None);
}

#[test]
fn tick_alerts_once_and_locks_idempotently() {
    let mut s = AccountSession::new();
    assert!(s.create_reservation(T_10_00, T_11_00, 9));
    // inside the alert lead and inside the grace window
    let e1 = s.reservation_tick(T_10_00 + 60, 15, 15);
    assert_eq!(
        e1,
        ReservationTickEvent::Alert { user_id: 9, start_time: T_10_00 }
    );
    let active = s.active_reservation.expect("pre-emption pointer expected");
    // an immediate second tick: same pointer, no second alert
    let e2 = s.reservation_tick(T_10_00 + 60, 15, 15);
    assert_eq!(e2, ReservationTickEvent::NoAlert);
    assert_eq!(s.active_reservation, Some(active));
    assert_eq!(s.reservations.len(), 1);
}

#[test]
fn tick_alerts_ahead_of_the_window() {
    let mut s = AccountSession::new();
    assert!(s.create_reservation(T_10_00, T_11_00, 9));
    // 10 minutes before the start, with a 15-minute lead
    let e = s.reservation_tick(T_10_00 - 600, 15, 15);
    assert_eq!(
        e,
        ReservationTickEvent::Alert { user_id: 9, start_time: T_10_00 }
    );
    // not inside the window yet: no pre-emption pointer
    assert_eq!(s.active_reservation, None);
    assert!(s.reservations[0].alerted);
}

#[test]
fn tick_expires_elapsed_reservations() {
    let mut s = AccountSession::new();
    assert!(s.create_reservation(T_10_00, T_11_00, 9));
    s.reservation_tick(T_10_00 + 60, 15, 15);
    assert!(s.active_reservation.is_some());
    // past the grace period: pointer cleared, reservation deleted
    let e = s.reservation_tick(T_10_00 + 15 * 60, 15, 15);
    assert_eq!(e, ReservationTickEvent::NoAlert);
    assert_eq!(s.active_reservation, None);
    assert!(s.reservations.is_empty());
}
