use orbital_time_server::allocator::{AllocationCommand, ChannelAllocator};

fn names(v: &[&str]) -> Vec<String> {
    v.iter().map(|s| s.to_string()).collect()
}

#[test]
fn new_allocator_is_empty() {
    let a = ChannelAllocator::new(3);
    assert_eq!(a.max_channels(), 3);
    assert_eq!(a.active_count(), 0);
    assert_eq!(a.channel_sat(0), None);
    assert_eq!(a.channel_sat(5), None);
}

#[test]
fn aos_takes_lowest_free_channel() {
    let mut a = ChannelAllocator::new(3);
    assert!(a.handle_aos("SAT-A", None));
    assert!(a.handle_aos("SAT-B", None));
    assert_eq!(a.channel_of("SAT-A"), Some(0));
    assert_eq!(a.channel_of("SAT-B"), Some(1));
    a.handle_los("SAT-A");
    assert!(a.handle_aos("SAT-C", None));
    assert_eq!(a.channel_of("SAT-C"), Some(0));
    assert_eq!(a.active_count(), 2);
}

#[test]
fn aos_is_idempotent() {
    let mut a = ChannelAllocator::new(2);
    assert!(a.handle_aos("SAT-A", None));
    assert!(a.handle_aos("SAT-A", None));
    assert_eq!(a.active_count(), 1);
    assert_eq!(a.channel_of("SAT-A"), Some(0));
}

#[test]
fn aos_refused_when_full() {
    let mut a = ChannelAllocator::new(1);
    assert!(a.handle_aos("SAT-A", None));
    assert!(!a.handle_aos("SAT-B", None));
    assert_eq!(a.channel_of("SAT-B"), None);
    assert_eq!(a.active_count(), 1);
}

#[test]
fn aos_rejects_bad_tle() {
    let mut a = ChannelAllocator::new(2);
    assert!(!a.handle_aos("SAT-A", Some("")));
    assert!(!a.handle_aos("SAT-A", Some("this tle is corrupt")));
    assert!(!a.handle_aos("SAT-A", Some("invalid data")));
    assert_eq!(a.active_count(), 0);
    assert!(a.handle_aos("SAT-A", Some("1 25544U 98067A")));
    assert_eq!(a.active_count(), 1);
}

#[test]
fn los_of_unknown_satellite_changes_nothing() {
    let mut a = ChannelAllocator::new(2);
    a.handle_aos("SAT-A", None);
    a.handle_los("SAT-Z");
    assert_eq!(a.active_count(), 1);
    a.handle_los("SAT-A");
    assert_eq!(a.active_count(), 0);
    assert_eq!(a.channel_sat(0), None);
}

#[test]
fn zero_channels_never_allocate() {
    let mut a = ChannelAllocator::new(0);
    assert!(!a.handle_aos("SAT-A", None));
    assert_eq!(a.active_count(), 0);
}

#[test]
fn plan_updates_releases_and_allocates() {
    let mut a = ChannelAllocator::new(3);
    a.handle_aos("OLD", None);
    a.handle_aos("KEEP", None);
    let visible = names(&["FAR", "KEEP", "NEAR", "NOCAT"]);
    // nearest first: NEAR, KEEP, NOCAT, FAR
    let by_range = vec![2, 1, 3, 0];
    let catalog = names(&["KEEP", "FAR", "NEAR", "OLD"]);
    let cmds = a.plan_allocation(&visible, &by_range, &catalog);
    assert_eq!(
        cmds,
        vec![
            AllocationCommand::Deallocate { channel_index: 0 },
            AllocationCommand::UpdateTarget { channel_index: 1, visible_index: 1 },
            AllocationCommand::Allocate { channel_index: 0, visible_index: 2, catalog_index: 2 },
            AllocationCommand::Allocate { channel_index: 2, visible_index: 0, catalog_index: 1 },
        ]
    );
    assert_eq!(a.channel_sat(0), Some("NEAR".to_string()));
    assert_eq!(a.channel_sat(1), Some("KEEP".to_string()));
    assert_eq!(a.channel_sat(2), Some("FAR".to_string()));
}

#[test]
fn plan_skips_duplicate_visible_names() {
    let mut a = ChannelAllocator::new(3);
    let visible = names(&["DUP", "DUP"]);
    let catalog = names(&["DUP"]);
    let cmds = a.plan_allocation(&visible, &vec![0, 1], &catalog);
    assert_eq!(
        cmds,
        vec![AllocationCommand::Allocate { channel_index: 0, visible_index: 0, catalog_index: 0 }]
    );
    assert_eq!(a.active_count(), 1);
}
