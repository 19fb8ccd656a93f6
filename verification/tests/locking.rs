use tradebot_core::errors::LockError;
use tradebot_core::session::{AccountSession, AfkEvent};

#[test]
fn lock_succeeds_on_free_account() {
    let mut s = AccountSession::new();
    assert_eq!(s.lock(1, 100), Ok(()));
    let stub = s.is_clocked_in().expect("holder expected");
    assert_eq!(stub.user_id, 1);
    assert_eq!(stub.start_time, 100);
    assert_eq!(stub.last_interaction, 100);
    assert_eq!(stub.end_time, None);
    assert!(!stub.afk_warn_flag);
}

#[test]
fn second_user_is_blocked_while_held() {
    let mut s = AccountSession::new();
    assert_eq!(s.lock(1, 100), Ok(()));
    assert_eq!(s.lock(2, 101), Err(LockError::HeldByOther));
    // the holder is unchanged
    assert_eq!(s.is_clocked_in().unwrap().user_id, 1);
}

#[test]
fn relock_by_holder_is_rejected() {
    let mut s = AccountSession::new();
    assert_eq!(s.lock(1, 100), Ok(()));
    assert_eq!(s.lock(1, 105), Err(LockError::AlreadyLocked));
}

#[test]
fn unlock_by_other_user_is_rejected() {
    let mut s = AccountSession::new();
    assert_eq!(s.lock(1, 100), Ok(()));
    assert_eq!(s.unlock(Some(2), 200), Err(LockError::HeldByOther));
    assert_eq!(s.is_clocked_in().unwrap().user_id, 1);
}

#[test]
fn unlock_by_holder_closes_the_session() {
    let mut s = AccountSession::new();
    assert_eq!(s.lock(1, 100), Ok(()));
    assert_eq!(s.unlock(Some(1), 160), Ok(()));
    assert!(s.is_clocked_in().is_none());
}

#[test]
fn forced_unlock_ignores_ownership() {
    let mut s = AccountSession::new();
    assert_eq!(s.lock(1, 100), Ok(()));
    assert_eq!(s.unlock(None, 160), Ok(()));
    assert!(s.is_clocked_in().is_none());
}

#[test]
fn unlock_without_holder_is_rejected() {
    let mut s = AccountSession::new();
    assert_eq!(s.unlock(None, 160), Err(LockError::NotLocked));
    assert_eq!(s.unlock(Some(1), 160), Err(LockError::NotLocked));
}

#[test]
fn reservation_blocks_other_users() {
    let mut s = AccountSession::new();
    assert!(s.create_reservation(1000, 2000, 7));
    // move the reservation into its window so the account points at it
    s.reservation_tick(1000, 15, 15);
    assert_eq!(s.lock(2, 1001), Err(LockError::AccountReserved));
    assert_eq!(s.lock(7, 1001), Ok(()));
}

#[test]
fn reservation_owner_preempts_holder() {
    let mut s = AccountSession::new();
    assert_eq!(s.lock(2, 0), Ok(()));
    assert!(s.create_reservation(1000, 2000, 7));
    s.reservation_tick(1000, 15, 15);
    // the owner takes over; the prior holder's stub is closed at the
    // takeover instant
    assert_eq!(s.lock(7, 1005), Ok(()));
    let stub = s.is_clocked_in().unwrap();
    assert_eq!(stub.user_id, 7);
    assert_eq!(s.stubs[0].user_id, 2);
    assert_eq!(s.stubs[0].end_time, Some(1005));
}

#[test]
fn afk_warns_exactly_once() {
    let mut s = AccountSession::new();
    assert_eq!(s.lock(1, 0), Ok(()));
    // 15 minutes idle allowance; 16 minutes have passed
    let e = s.afk_tick(16 * 60, 15);
    assert_eq!(e, AfkEvent::Warn { user_id: 1 });
    // a second tick before any response stays quiet
    let e2 = s.afk_tick(16 * 60, 15);
    assert_eq!(e2, AfkEvent::NoAction);
    let e3 = s.afk_tick(17 * 60, 15);
    assert_eq!(e3, AfkEvent::NoAction);
}

#[test]
fn afk_not_due_before_allowance() {
    let mut s = AccountSession::new();
    assert_eq!(s.lock(1, 0), Ok(()));
    assert_eq!(s.afk_tick(15 * 60, 15), AfkEvent::NoAction);
}

#[test]
fn afk_confirm_resets_the_clock() {
    let mut s = AccountSession::new();
    assert_eq!(s.lock(1, 0), Ok(()));
    assert_eq!(s.afk_tick(16 * 60, 15), AfkEvent::Warn { user_id: 1 });
    s.afk_confirm(17 * 60);
    let stub = s.is_clocked_in().unwrap();
    assert_eq!(stub.last_interaction, 17 * 60);
    assert!(!stub.afk_warn_flag);
    // the allowance starts over
    assert_eq!(s.afk_tick(18 * 60, 15), AfkEvent::NoAction);
    assert_eq!(s.afk_tick(33 * 60 + 1, 15), AfkEvent::Warn { user_id: 1 });
}
