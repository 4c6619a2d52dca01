use agent_bookkeeper::{
    catalog_status, CanonicalRevision, Catalog, LogicalLocation, ProducerId, RecordIdentity,
    SourceRegistration, SubscriptionConfig, SubscriptionMode,
};

#[test]
fn status_reports_source_progress_and_independent_subscription_backlog() {
    let producer = ProducerId::new();
    let identity =
        RecordIdentity::new(producer, "codex", "session-a", "transcript", "primary").unwrap();
    let mut catalog = Catalog::open_in_memory().unwrap();
    let registration = SourceRegistration::new("fixture", producer, "fixture", 1).unwrap();
    let scan = catalog.begin_source_scan(&registration).unwrap();
    let subscription = catalog
        .create_subscription(
            SubscriptionConfig::new("status-fixture", 1, true, true).unwrap(),
            SubscriptionMode::ReplayEvents,
            0,
        )
        .unwrap();
    catalog
        .observe_present_at(
            &identity,
            &LogicalLocation::new("active", "sessions/a.jsonl").unwrap(),
            CanonicalRevision::from_bytes(b"status\n"),
            10,
        )
        .unwrap();
    catalog
        .set_subscription_enabled(subscription.id, false)
        .unwrap();

    let status = catalog_status(&catalog, 50).unwrap();

    assert_eq!(status.latest_event_sequence, 1);
    assert_eq!(status.active_records, 1);
    assert_eq!(status.sources.len(), 1);
    assert_eq!(status.sources[0].next_generation, scan.generation());
    assert_eq!(status.subscriptions.len(), 1);
    assert!(!status.subscriptions[0].enabled);
    assert_eq!(status.subscriptions[0].deliveries.queued, 1);
    assert_eq!(status.subscriptions[0].oldest_unresolved_age_ms, Some(40));
}
