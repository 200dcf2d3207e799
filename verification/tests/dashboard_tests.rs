use orbital_time_server::dashboard::{lock_bell, push_event_log, record_channel_trail};

#[test]
fn test_lock_bell_rings_on_entry_only() {
    assert!(lock_bell(false, true));
    assert!(!lock_bell(true, true));
    assert!(!lock_bell(true, false));
    assert!(!lock_bell(false, false));
}

#[test]
fn test_channel_trail_capped_and_cleared() {
    let mut trail: Vec<(u32, i64)> = Vec::new();
    for k in 0..305u32 {
        record_channel_trail(&mut trail, true, (k, -(k as i64)));
    }
    assert_eq!(trail.len(), 300);
    assert_eq!(trail[0], (5, -5));
    assert_eq!(trail[299], (304, -304));
    record_channel_trail(&mut trail, false, (999, 0));
    assert!(trail.is_empty());
}

#[test]
fn test_event_log_trims_dedups_and_caps() {
    let mut log: Vec<String> = Vec::new();
    push_event_log(&mut log, "[LEODO] stepped\r\n");
    assert_eq!(log, vec!["[LEODO] stepped".to_string()]);
    push_event_log(&mut log, "\n");
    push_event_log(&mut log, "again: [LEODO] stepped");
    assert_eq!(log.len(), 1);
    for k in 0..60 {
        push_event_log(&mut log, &format!("message {:03}", k));
    }
    assert_eq!(log.len(), 50);
    assert_eq!(log[0], "message 010");
    assert_eq!(log[49], "message 059");
}
