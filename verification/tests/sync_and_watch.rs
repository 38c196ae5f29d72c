use core::sync::atomic::Ordering;
use litebox_windows_userland::ctxwatch::{
    arm, build_disarmed_context, build_fixed_context, build_watch_context, diag_watchaddr_target,
    hit_window, on_possible_fixed_hit, DebugRegisters, WatchState,
};
use litebox_windows_userland::xproc_sync::{
    may_drop_silently, on_contended, on_exchanged, on_released, signed_error, wait, wait_timeout,
    CrossProcessMutex, CrossProcessMutexGuard, LockStep, UnlockStep, WaitError, CONTENDED, FREE,
    LOCKED,
};

#[test]
fn a_free_lock_is_taken_and_freed() {
    let mutex = CrossProcessMutex::new();
    assert_eq!(mutex.raw_state().load(Ordering::Relaxed), FREE);
    assert!(mutex.try_lock());
    assert_eq!(mutex.raw_state().load(Ordering::Relaxed), LOCKED);
    assert!(!mutex.try_lock());
    assert_eq!(CrossProcessMutexGuard::new(&mutex).unlock(), UnlockStep::Released);
    assert_eq!(mutex.raw_state().load(Ordering::Relaxed), FREE);
    assert_eq!(mutex.unlock(), UnlockStep::NotHeld);
}

#[test]
fn a_taken_lock_makes_sleepers() {
    let mutex = CrossProcessMutex::default();
    assert_eq!(mutex.lock(), LockStep::Acquired);
    assert_eq!(mutex.lock(), LockStep::Sleep);
    assert_eq!(mutex.raw_state().load(Ordering::Relaxed), CONTENDED);
    assert_eq!(mutex.unlock(), UnlockStep::Signal);
    assert_eq!(mutex.contend(), LockStep::Acquired);
    assert_eq!(mutex.raw_state().load(Ordering::Relaxed), CONTENDED);
    assert_eq!(mutex.unlock(), UnlockStep::Signal);
    mutex.raw_state().store(7, Ordering::Relaxed);
    assert_eq!(mutex.unlock(), UnlockStep::Corrupted { word: 7 });
}

#[test]
fn a_woken_sleeper_that_loses_the_lock_is_woken_again() {
    let mutex = CrossProcessMutex::new();
    assert!(mutex.try_lock());
    assert_eq!(mutex.lock(), LockStep::Sleep);
    assert_eq!(mutex.unlock(), UnlockStep::Signal);
    // Another takes the lock before the sleeper does.
    assert!(mutex.try_lock());
    assert_eq!(mutex.contend(), LockStep::Sleep);
    assert!(!mutex.try_lock());
    assert_eq!(mutex.unlock(), UnlockStep::Signal);
    assert_eq!(mutex.contend(), LockStep::Acquired);
    assert!(!mutex.try_lock());
}

#[test]
fn lock_words_are_judged() {
    assert!(on_exchanged(Ok(FREE)));
    assert!(!on_exchanged(Err(LOCKED)));
    assert_eq!(on_contended(FREE), LockStep::Acquired);
    assert_eq!(on_contended(LOCKED), LockStep::Sleep);
    assert_eq!(on_contended(CONTENDED), LockStep::Sleep);
    assert_eq!(on_released(LOCKED), UnlockStep::Released);
    assert_eq!(on_released(CONTENDED), UnlockStep::Signal);
    assert_eq!(on_released(FREE), UnlockStep::NotHeld);
    assert_eq!(on_released(3), UnlockStep::Corrupted { word: 3 });
    assert!(may_drop_silently(LOCKED));
    assert!(!may_drop_silently(CONTENDED));
}

#[test]
fn waits_are_judged() {
    assert_eq!(wait(0, 0), Ok(()));
    assert_eq!(wait(0xFFFF_FFFF, 6), Err(WaitError::Os(6)));
    assert_eq!(wait(258, 0), Err(WaitError::Unexpected(258)));
    assert_eq!(wait_timeout(0, 0), Ok(true));
    assert_eq!(wait_timeout(258, 0), Ok(false));
    assert_eq!(wait_timeout(0xFFFF_FFFF, 1460), Ok(false));
    assert_eq!(wait_timeout(0xFFFF_FFFF, 6), Err(WaitError::Os(6)));
    assert_eq!(wait_timeout(0x80, 0), Err(WaitError::Unexpected(0x80)));
    assert_eq!(signed_error(0x8000_0000), -1);
    assert_eq!(
        WaitError::Unexpected(0x80).message(),
        "WaitForSingleObject on cross-process event returned unexpected 0x80"
    );
    assert_eq!(WaitError::Os(-1).message(), "os error -1");
}

const NONE: DebugRegisters = DebugRegisters { dr0: 0, dr1: 0, dr6: 0, dr7: 0 };

#[test]
fn watches_are_encoded() {
    let armed = build_watch_context(NONE, 0x1000);
    assert_eq!(armed, DebugRegisters { dr0: 0x1000, dr1: 0, dr6: 0, dr7: 0x9_0401 });
    let fixed = build_fixed_context(NONE, 0x2000);
    assert_eq!(fixed, DebugRegisters { dr0: 0, dr1: 0x2000, dr6: 0, dr7: 0x90_0404 });
    let both = build_watch_context(fixed, 0x1000);
    assert_eq!(both, DebugRegisters { dr0: 0x1000, dr1: 0x2000, dr6: 0, dr7: 0x99_0405 });
    let left = build_disarmed_context(both);
    assert_eq!(left, DebugRegisters { dr0: 0, dr1: 0x2000, dr6: 0, dr7: 0x99_0404 });
}

#[test]
fn hits_belong_to_the_armed_address() {
    let mut state = WatchState::new();
    let mut regs = DebugRegisters { dr6: 1, ..build_watch_context(NONE, 0x1000) };
    assert!(!state.on_possible_hit(&mut regs, 5));
    state.arm_addr(0x1000);
    assert_eq!(state.current_armed_addr(), 0x1000);
    assert!(state.is_armed_here(0x1000));
    assert!(!state.is_armed_here(0x2000));
    assert!(state.on_possible_hit(&mut regs, 5));
    assert_eq!((state.hit_count, state.last_hit_writer, regs.dr6), (1, 5, 0));
    assert!(!state.on_possible_hit(&mut regs, 6));
    assert!(state.disarm());
    assert!(!state.disarm());
    assert!(!state.is_armed_here(0));
}

#[test]
fn the_fixed_watch_is_armed_once() {
    let mut state = WatchState::new();
    assert!(!state.arm_fixed_on_current_thread(0));
    assert!(state.arm_fixed_on_current_thread(0x2000));
    assert!(!state.arm_fixed_on_current_thread(0x2000));
    let mut regs = DebugRegisters { dr6: 0xB, ..NONE };
    assert!(!on_possible_fixed_hit(&mut regs, 0));
    assert!(on_possible_fixed_hit(&mut regs, 0x2000));
    assert_eq!(regs.dr6, 0x9);
    assert!(!on_possible_fixed_hit(&mut regs, 0x2000));
    let w = hit_window(0x2000, 16, 8);
    assert_eq!((w.below, w.above), (0x1FF8, 0x2008));
    assert_eq!(w.code_start, 16u64.wrapping_sub(48));
    assert_eq!(w.rdi_base, 8u64.wrapping_sub(16));
}

#[test]
fn watch_addresses_are_read() {
    assert_eq!(diag_watchaddr_target(None), 0);
    assert_eq!(diag_watchaddr_target(Some("0x7ff0")), 0x7FF0);
    assert_eq!(diag_watchaddr_target(Some("0x0xAb")), 0xAB);
    assert_eq!(diag_watchaddr_target(Some("ffffffffffffffff")), u64::MAX);
    assert_eq!(diag_watchaddr_target(Some("10000000000000000")), 0);
    assert_eq!(diag_watchaddr_target(Some("zz")), 0);
    assert_eq!(diag_watchaddr_target(Some("0x")), 0);
    assert_eq!(diag_watchaddr_target(Some("1")), 0);
    assert_eq!(diag_watchaddr_target(Some("0x1")), 1);
    assert_eq!(diag_watchaddr_target(Some("11")), 0x11);
    assert_eq!(arm(0x1000), 0x1080);
    assert_eq!(arm(u64::MAX), 0x7F);
}
