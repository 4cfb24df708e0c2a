//! The single-flight compaction guard.

use motorhead::flight::CompactionGuard;

#[test]
fn second_acquire_fails_until_release() {
    let mut guard = CompactionGuard::new();
    let id = "busy-session".to_string();

    assert!(guard.try_acquire(&id));
    assert!(guard.is_active(&id));
    // While the task is in flight, every further attempt fails.
    assert!(!guard.try_acquire(&id));
    assert!(!guard.try_acquire(&id));

    guard.release(&id);
    assert!(!guard.is_active(&id));
    assert!(guard.try_acquire(&id));
}

#[test]
fn many_overlapping_attempts_admit_exactly_one() {
    // Many over-threshold appends of one session race to schedule its
    // compaction: exactly one check-and-set wins.
    let mut guard = CompactionGuard::new();
    let id = "hot-session".to_string();
    let mut admitted = 0;
    for _ in 0..16 {
        if guard.try_acquire(&id) {
            admitted += 1;
        }
    }
    assert_eq!(admitted, 1);
}

#[test]
fn sessions_are_guarded_independently() {
    let mut guard = CompactionGuard::new();
    let a = "a".to_string();
    let b = "b".to_string();
    assert!(guard.try_acquire(&a));
    assert!(guard.try_acquire(&b));
    guard.release(&a);
    assert!(!guard.is_active(&a));
    assert!(guard.is_active(&b));
}

#[test]
fn release_is_unconditional() {
    let mut guard = CompactionGuard::new();
    let id = "never-held".to_string();
    // Releasing a session nothing holds changes nothing and does not fail.
    guard.release(&id);
    assert!(!guard.is_active(&id));
}
