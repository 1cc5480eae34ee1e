use mirthbr::dedup::DeduplicationStore;
use mirthbr::manager::{inject_decision, recovery_plan, retry_due, retry_plan, RecoveryAction, RetryDecision};
use mirthbr::registry::ChannelRegistry;
use mirthbr::status::{MessageRecord, MessageStatus, StoreEvent};

#[test]
fn test_registry_single_instance_after_redeploy() {
    let mut reg: ChannelRegistry<u32> = ChannelRegistry::new();
    assert!(reg.insert(7, 100).is_none());
    // redeploy: the old handle comes back for aborting, one entry remains
    let old = reg.insert(7, 200);
    assert_eq!(old, Some(100));
    assert_eq!(reg.len(), 1);
    assert_eq!(reg.lookup(7), Some(&200));
}

#[test]
fn test_registry_delete_then_lookup_fails() {
    let mut reg: ChannelRegistry<u32> = ChannelRegistry::new();
    reg.insert(1, 10);
    reg.insert(2, 20);
    assert_eq!(reg.remove(1), Some(10));
    assert!(reg.lookup(1).is_none());
    assert!(!reg.contains(1));
    assert_eq!(reg.lookup(2), Some(&20));
    assert!(reg.remove(1).is_none());
}

#[test]
fn test_registry_drain_for_shutdown() {
    let mut reg: ChannelRegistry<u32> = ChannelRegistry::new();
    reg.insert(1, 10);
    reg.insert(2, 20);
    let drained = reg.drain_all();
    assert_eq!(drained.len(), 2);
    assert_eq!(reg.len(), 0);
    assert!(!reg.contains(1));
}

#[test]
fn test_inject_decision_matches_registry() {
    let mut reg: ChannelRegistry<u32> = ChannelRegistry::new();
    reg.insert(5, 1);
    assert!(inject_decision(&reg, 5).is_ok());
    let err = inject_decision(&reg, 6).unwrap_err();
    assert_eq!(err, "Channel not found or not running");
    reg.remove(5);
    assert!(inject_decision(&reg, 5).is_err());
}

#[test]
fn test_dedup_marks_and_detects() {
    let mut store = DeduplicationStore::new();
    let now = 1_000_000i64;
    assert!(!store.is_duplicate(1, "X", now));
    store.mark_processed(1, "X", now);
    assert!(store.is_duplicate(1, "X", now));
    // another channel sees nothing
    assert!(!store.is_duplicate(2, "X", now));
    // another content sees nothing
    assert!(!store.is_duplicate(1, "Y", now));
}

#[test]
fn test_dedup_clear_channel_allows_replay() {
    let mut store = DeduplicationStore::new();
    let now = 1_000_000i64;
    store.mark_processed(1, "X", now);
    store.mark_processed(2, "X", now);
    store.clear_channel(1);
    assert!(!store.is_duplicate(1, "X", now));
    assert!(store.is_duplicate(2, "X", now));
}

#[test]
fn test_dedup_single_row_per_pair() {
    // marking the same content twice leaves one row: cleaning everything
    // away removes exactly one
    let mut store = DeduplicationStore::with_ttl(1);
    let now = 1_000_000i64;
    store.mark_processed(1, "X", now);
    store.mark_processed(1, "X", now + 10);
    let far = now + 100 * 3_600_000;
    assert_eq!(store.cleanup_expired(far), 1);
}

#[test]
fn test_dedup_expiry_and_cleanup() {
    let mut store = DeduplicationStore::with_ttl(1);
    let now = 1_000_000i64;
    store.mark_processed(1, "X", now);
    let one_hour = 3_600_000i64;
    assert!(store.is_duplicate(1, "X", now + one_hour - 1));
    assert!(!store.is_duplicate(1, "X", now + one_hour + 1));
    let removed = store.cleanup_expired(now + one_hour + 1);
    assert_eq!(removed, 1);
    // after cleanup the content can be recorded again
    store.mark_processed(1, "X", now + one_hour + 2);
    assert!(store.is_duplicate(1, "X", now + one_hour + 3));
}

#[test]
fn test_hash_content_stable() {
    // FNV-1a of "hello", in lowercase hex
    assert_eq!(mirthbr::dedup::hash_content("hello"), "a430d84680aabd0b");
    assert_eq!(mirthbr::dedup::hash_content(""), "cbf29ce484222325");
}

#[test]
fn test_retry_backoff() {
    let updated = 1_000_000i64;
    // 2^0 minutes
    assert!(!retry_due(0, updated, updated + 59_999));
    assert!(retry_due(0, updated, updated + 60_000));
    // 2^3 minutes
    assert!(!retry_due(3, updated, updated + 8 * 60_000 - 1));
    assert!(retry_due(3, updated, updated + 8 * 60_000));
}

fn record(id: u128, channel_id: u128, retry_count: i32) -> MessageRecord {
    MessageRecord {
        id,
        channel_id,
        content: "payload".to_string(),
        status: MessageStatus::ERROR,
        error_message: None,
        retry_count,
        created_at_ms: 0,
        updated_at_ms: 0,
    }
}

#[test]
fn test_retry_plan_paths() {
    let mut reg: ChannelRegistry<u32> = ChannelRegistry::new();
    reg.insert(9, 1);

    match retry_plan(&reg, None) {
        RetryDecision::NotFound => {},
        _ => panic!("missing record must be NotFound"),
    }

    match retry_plan(&reg, Some(record(50, 9, 2))) {
        RetryDecision::Planned { events, enqueue } => {
            assert_eq!(events.len(), 2);
            assert!(matches!(events[0], StoreEvent::IncrementRetry));
            assert!(matches!(events[1], StoreEvent::SetStatus(MessageStatus::PENDING, None)));
            let m = enqueue.expect("channel runs, so the message re-enters the queue");
            assert_eq!(m.id, 50);
            assert_eq!(m.channel_id, 9);
            assert_eq!(m.origin.as_deref(), Some("RETRY_API"));
        },
        _ => panic!("record present must be Planned"),
    }

    match retry_plan(&reg, Some(record(51, 8, 0))) {
        RetryDecision::Planned { enqueue, .. } => assert!(enqueue.is_none()),
        _ => panic!(),
    }
}

#[test]
fn test_recovery_plan_routes_to_running_channels() {
    let mut reg: ChannelRegistry<u32> = ChannelRegistry::new();
    reg.insert(1, 10);
    let records = vec![record(100, 1, 0), record(101, 2, 0)];
    let plan = recovery_plan(&reg, records);
    assert_eq!(plan.len(), 2);
    match &plan[0] {
        RecoveryAction::Enqueue(m) => {
            assert_eq!(m.id, 100);
            assert_eq!(m.channel_id, 1);
            assert_eq!(m.origin.as_deref(), Some("RECOVERY"));
        },
        _ => panic!("running channel must get its message back"),
    }
    match &plan[1] {
        RecoveryAction::Leave(id) => assert_eq!(*id, 101),
        _ => panic!("stopped channel leaves its record as it is"),
    }
}
