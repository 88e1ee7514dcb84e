use handle_manager::{AllocPolicy, HandleError, HandleManager, ReleasePolicy};

#[test]
fn fresh_handles_count_up_without_tracking() {
    let mut x = HandleManager::new();
    for expected in 0..1000 {
        assert_eq!(x.next(), Ok(expected));
    }
}

#[test]
fn fresh_handles_count_up_without_tracking_despite_releases() {
    let mut x = HandleManager::new().with_alloc_policy(AllocPolicy::RecycleLowest).unwrap();
    let mut previous = None;
    for round in 0..50 {
        let handle = x.next().unwrap();
        assert_eq!(handle, round);
        if let Some(earlier) = previous {
            assert!(handle > earlier);
        }
        assert_eq!(x.release(handle), Ok(()));
        assert_eq!(x.release(handle / 2), Ok(()));
        previous = Some(handle);
    }
}

#[test]
fn lowest_first_recycling() {
    let mut x = HandleManager::new()
        .with_alloc_policy(AllocPolicy::RecycleLowest)
        .unwrap()
        .with_release_policy(ReleasePolicy::Track)
        .unwrap();
    assert_eq!(x.next(), Ok(0));
    assert_eq!(x.next(), Ok(1));
    assert_eq!(x.next(), Ok(2));
    assert_eq!(x.next(), Ok(3));
    assert_eq!(x.release(3), Ok(()));
    assert_eq!(x.release(1), Ok(()));
    assert_eq!(x.next(), Ok(1));
    assert_eq!(x.next(), Ok(3));
}

#[test]
fn double_free_is_rejected() {
    let mut x = HandleManager::new().with_release_policy(ReleasePolicy::Track).unwrap();
    assert_eq!(x.next(), Ok(0));
    assert_eq!(x.next(), Ok(1));
    assert!(x.is_used(1));
    assert_eq!(x.release(1), Ok(()));
    assert!(!x.is_used(1));
    assert_eq!(x.release(1), Err(HandleError::InvalidRelease));
    assert!(!x.is_used(1));
    // The refused release has not put the handle into the free set a second time.
    assert_eq!(x.next(), Ok(1));
    assert_eq!(x.next(), Ok(2));
}

#[test]
fn double_free_is_rejected_without_recycling() {
    let mut x = HandleManager::new()
        .with_release_policy(ReleasePolicy::Track)
        .unwrap()
        .with_alloc_policy(AllocPolicy::NeverRecycle)
        .unwrap();
    assert_eq!(x.next(), Ok(0));
    assert_eq!(x.release(0), Ok(()));
    assert!(!x.is_used(0));
    assert_eq!(x.release(0), Err(HandleError::InvalidRelease));
}

#[test]
fn never_recycle_isolation() {
    let mut x = HandleManager::new()
        .with_release_policy(ReleasePolicy::Track)
        .unwrap()
        .with_alloc_policy(AllocPolicy::NeverRecycle)
        .unwrap();
    assert_eq!(x.next(), Ok(0));
    assert_eq!(x.next(), Ok(1));
    assert_eq!(x.next(), Ok(2));
    assert_eq!(x.release(1), Ok(()));
    assert_eq!(x.release(0), Ok(()));
    assert!(!x.is_used(0));
    assert!(!x.is_used(1));
    assert!(x.is_used(2));
    for expected in 3..20 {
        assert_eq!(x.next(), Ok(expected));
    }
    assert!(!x.is_used(0));
    assert!(!x.is_used(1));
}

#[test]
fn untracked_release_always_succeeds() {
    let mut x = HandleManager::new().with_release_policy(ReleasePolicy::DontTrack).unwrap();
    // Never dispensed, and nothing dispensed at all.
    assert_eq!(x.release(0), Ok(()));
    assert_eq!(x.release(12345), Ok(()));
    assert_eq!(x.release(usize::MAX), Ok(()));
    assert_eq!(x.next(), Ok(0));
    assert_eq!(x.next(), Ok(1));
    // Dispensed, twice over, and not dispensed yet.
    assert_eq!(x.release(0), Ok(()));
    assert_eq!(x.release(0), Ok(()));
    assert_eq!(x.release(2), Ok(()));
    assert!(x.is_used(0));
    assert!(!x.is_used(2));
    assert_eq!(x.next(), Ok(2));
    assert_eq!(x.next(), Ok(3));
}

#[test]
fn configuration_is_locked_after_first_handle() {
    let mut x = HandleManager::new()
        .with_release_policy(ReleasePolicy::Track)
        .unwrap()
        .with_alloc_policy(AllocPolicy::RecycleLowest)
        .unwrap();
    assert_eq!(x.next(), Ok(0));
    assert_eq!(
        x.configure_alloc_policy(AllocPolicy::NeverRecycle),
        Err(HandleError::ConfigurationLocked)
    );
    assert_eq!(
        x.configure_release_policy(ReleasePolicy::DontTrack),
        Err(HandleError::ConfigurationLocked)
    );
    // Still tracking: a double free is noticed. Still recycling: the handle comes back.
    assert_eq!(x.release(0), Ok(()));
    assert_eq!(x.release(0), Err(HandleError::InvalidRelease));
    assert_eq!(x.next(), Ok(0));
    assert_eq!(x.next(), Ok(1));
}

#[test]
fn configuration_stays_locked_when_all_handles_are_free() {
    let mut x = HandleManager::new().with_release_policy(ReleasePolicy::Track).unwrap();
    assert_eq!(x.next(), Ok(0));
    assert_eq!(x.release(0), Ok(()));
    assert_eq!(
        x.configure_release_policy(ReleasePolicy::DontTrack),
        Err(HandleError::ConfigurationLocked)
    );
    assert!(matches!(
        x.with_alloc_policy(AllocPolicy::NeverRecycle),
        Err(HandleError::ConfigurationLocked)
    ));
}

#[test]
fn builders_refuse_a_manager_that_has_dispensed() {
    let mut x = HandleManager::new();
    assert_eq!(x.next(), Ok(0));
    assert!(matches!(
        x.with_release_policy(ReleasePolicy::Track),
        Err(HandleError::ConfigurationLocked)
    ));

    let mut y = HandleManager::new();
    assert_eq!(y.next(), Ok(0));
    assert!(matches!(
        y.with_alloc_policy(AllocPolicy::NeverRecycle),
        Err(HandleError::ConfigurationLocked)
    ));
}

#[test]
fn configuration_can_change_until_first_handle() {
    let mut x = HandleManager::new();
    assert_eq!(x.configure_release_policy(ReleasePolicy::Track), Ok(()));
    assert_eq!(x.configure_alloc_policy(AllocPolicy::NeverRecycle), Ok(()));
    assert_eq!(x.configure_alloc_policy(AllocPolicy::RecycleLowest), Ok(()));
    // A refused release does not count as dispensing.
    assert_eq!(x.release(0), Err(HandleError::InvalidRelease));
    assert_eq!(x.configure_alloc_policy(AllocPolicy::NeverRecycle), Ok(()));
    assert_eq!(x.next(), Ok(0));
    assert_eq!(x.release(0), Ok(()));
    // Tracking without recycling, as configured last.
    assert!(!x.is_used(0));
    assert_eq!(x.next(), Ok(1));
}

#[test]
fn end_to_end_scenario() {
    let mut x = HandleManager::new()
        .with_alloc_policy(AllocPolicy::RecycleLowest)
        .unwrap()
        .with_release_policy(ReleasePolicy::Track)
        .unwrap();
    assert_eq!(x.next(), Ok(0));
    assert_eq!(x.next(), Ok(1));
    assert_eq!(x.next(), Ok(2));
    assert_eq!(x.next(), Ok(3));
    assert_eq!(x.release(3), Ok(()));
    assert!(!x.is_used(3));
    assert_eq!(x.release(1), Ok(()));
    assert_eq!(x.next(), Ok(1));
    assert_eq!(x.next(), Ok(3));
}
