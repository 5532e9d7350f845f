use threadshare::PendingGroups;

#[test]
fn acquired_ids_are_distinct_and_tracked() {
    let mut groups: PendingGroups<u32> = PendingGroups::new();
    let a = groups.acquire_pending_future_id();
    let b = groups.acquire_pending_future_id();
    let c = groups.acquire_pending_future_id();
    assert_ne!(a, b);
    assert_ne!(b, c);
    assert_ne!(a, c);
    assert!(groups.is_tracked(a));
    assert!(groups.is_tracked(b));
    assert!(groups.is_tracked(c));
}

#[test]
fn acquire_after_release_gives_a_new_id() {
    let mut groups: PendingGroups<u32> = PendingGroups::new();
    let a = groups.acquire_pending_future_id();
    assert_eq!(groups.release_pending_future_id(a), Vec::<u32>::new());
    let b = groups.acquire_pending_future_id();
    assert_ne!(a, b);
    assert!(!groups.is_tracked(a));
    assert!(groups.is_tracked(b));
}

#[test]
fn released_id_is_no_longer_tracked() {
    let mut groups: PendingGroups<u32> = PendingGroups::new();
    let id = groups.acquire_pending_future_id();
    groups.add_pending_future(id, 7);
    groups.add_pending_future(id, 8);
    assert_eq!(groups.release_pending_future_id(id), vec![7, 8]);
    assert!(!groups.is_tracked(id));
}

#[test]
fn drained_id_is_no_longer_tracked() {
    let mut groups: PendingGroups<u32> = PendingGroups::new();
    let id = groups.acquire_pending_future_id();
    groups.add_pending_future(id, 1);
    assert_eq!(groups.drain_pending_futures(id), Some(vec![1]));
    assert!(!groups.is_tracked(id));
}

#[test]
fn drain_of_empty_group_has_nothing_to_cancel() {
    let mut groups: PendingGroups<u32> = PendingGroups::new();
    let id = groups.acquire_pending_future_id();
    assert_eq!(groups.drain_pending_futures(id), None);
    assert!(!groups.is_tracked(id));
}

#[test]
fn drain_hands_out_every_added_task() {
    let mut groups: PendingGroups<u64> = PendingGroups::new();
    let id = groups.acquire_pending_future_id();
    for delay in [30u64, 10, 50, 20, 40] {
        groups.add_pending_future(id, delay);
    }
    let tasks = groups.drain_pending_futures(id).unwrap();
    assert_eq!(tasks.len(), 5);
    assert_eq!(tasks.iter().copied().max(), Some(50));
    let mut sorted = tasks.clone();
    sorted.sort();
    assert_eq!(sorted, vec![10, 20, 30, 40, 50]);
}

#[test]
fn groups_are_kept_apart() {
    let mut groups: PendingGroups<&str> = PendingGroups::new();
    let a = groups.acquire_pending_future_id();
    let b = groups.acquire_pending_future_id();
    groups.add_pending_future(a, "a1");
    groups.add_pending_future(b, "b1");
    groups.add_pending_future(a, "a2");
    assert_eq!(groups.drain_pending_futures(b), Some(vec!["b1"]));
    assert!(groups.is_tracked(a));
    assert_eq!(groups.release_pending_future_id(a), vec!["a1", "a2"]);
}

#[test]
fn fresh_tracker_starts_over() {
    let mut first: PendingGroups<u32> = PendingGroups::new();
    let old = first.acquire_pending_future_id();
    let _ = first.acquire_pending_future_id();
    let fresh: PendingGroups<u32> = PendingGroups::new();
    assert!(!fresh.is_tracked(old));
    assert!(fresh.has_free_id());
}
