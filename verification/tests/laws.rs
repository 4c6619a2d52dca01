use agent_bookkeeper::catalog::ConstraintFault;
use agent_bookkeeper::domain::{EventId, RecordId, RevisionId};
use agent_bookkeeper::ident::Uuid;
use agent_bookkeeper::records::ObservationIds;
use agent_bookkeeper::{
    CanonicalRevision, Catalog, CatalogError, DeliveryError, DeliveryOutcome, EventKind,
    LogicalLocation, ProducerId, RecordIdentity, RecordState, RetryPolicy, SourceFingerprint,
    SourceRegistration, SubscriptionConfig, SubscriptionId, SubscriptionMode, TombstoneGrace,
};

fn identity(key: &str) -> RecordIdentity {
    RecordIdentity::new(
        ProducerId::from_uuid(Uuid::from_u128(1)),
        "codex",
        "session-a",
        "transcript",
        key,
    )
    .unwrap()
}

fn location(path: &str) -> LogicalLocation {
    LogicalLocation::new("active", path).unwrap()
}

fn bytes(content: &str) -> CanonicalRevision {
    CanonicalRevision::from_bytes(content.as_bytes())
}

fn ids(start: u128) -> ObservationIds {
    ObservationIds {
        record_id: RecordId::from_uuid(Uuid::from_u128(start)),
        revision_id: RevisionId::from_uuid(Uuid::from_u128(start + 1)),
        first_event: EventId::from_uuid(Uuid::from_u128(start + 2)),
        second_event: EventId::from_uuid(Uuid::from_u128(start + 3)),
    }
}

fn subscribed(policy: RetryPolicy) -> (Catalog, SubscriptionId) {
    let mut catalog = Catalog::open_in_memory().unwrap();
    let subscription = catalog
        .create_subscription(
            SubscriptionConfig::new("consumer", 1, true, true)
                .unwrap()
                .with_retry_policy(policy),
            SubscriptionMode::ReplayEvents,
            0,
        )
        .unwrap();
    (catalog, subscription.id)
}

#[test]
fn a_repeated_observation_changes_nothing() {
    let mut catalog = Catalog::open_in_memory().unwrap();
    let first = catalog
        .observe_present_with(&identity("a"), &location("a"), bytes("x"), 1, ids(100))
        .unwrap();
    assert_eq!(first.len(), 1);
    assert_eq!(first[0].id.as_uuid().as_u128(), 102);
    assert_eq!(first[0].record_version, 1);
    let again = catalog
        .observe_present_with(&identity("a"), &location("a"), bytes("x"), 2, ids(200))
        .unwrap();
    assert!(again.is_empty());
    assert_eq!(catalog.records.len(), 1);
    assert_eq!(catalog.latest_event_sequence(), Ok(1));
}

#[test]
fn a_restored_rewrite_takes_two_versions() {
    let mut catalog = Catalog::open_in_memory().unwrap();
    catalog
        .observe_present_with(&identity("a"), &location("a"), bytes("x"), 1, ids(100))
        .unwrap();
    catalog.tombstone_at(&identity("a"), 2).unwrap();
    let both = catalog
        .observe_present_with(&identity("a"), &location("b"), bytes("y"), 3, ids(200))
        .unwrap();
    let kinds: Vec<EventKind> = both.iter().map(|event| event.kind).collect();
    let versions: Vec<u64> = both.iter().map(|event| event.record_version).collect();
    assert_eq!(kinds, vec![EventKind::RecordRestored, EventKind::RevisionCommitted]);
    assert_eq!(versions, vec![3, 4]);
    let current = catalog.current_record(&identity("a")).unwrap().unwrap();
    assert_eq!(current.record_version, 4);
    assert_eq!(current.location.source_relative_path(), "b");
    assert_eq!(current.revision, Some(bytes("y")));
}

#[test]
fn a_taken_identifier_is_refused_and_changes_nothing() {
    let mut catalog = Catalog::open_in_memory().unwrap();
    catalog
        .observe_present_with(&identity("a"), &location("a"), bytes("x"), 1, ids(100))
        .unwrap();
    let before = catalog.clone();
    assert_eq!(
        catalog
            .observe_present_with(&identity("b"), &location("b"), bytes("y"), 2, ids(100))
            .unwrap_err(),
        CatalogError::Constraint(ConstraintFault::DuplicateIdentifier)
    );
    assert_eq!(catalog.to_columns().records.len(), before.to_columns().records.len());
    assert!(catalog == before);
}

#[test]
fn deleting_twice_or_the_unknown_is_silent() {
    let mut catalog = Catalog::open_in_memory().unwrap();
    catalog
        .observe_present_at(&identity("a"), &location("a"), bytes("x"), 1)
        .unwrap();
    assert!(catalog.tombstone_at(&identity("a"), 2).unwrap().is_some());
    assert!(catalog.tombstone_at(&identity("a"), 3).unwrap().is_none());
    assert!(catalog.tombstone_at(&identity("b"), 4).unwrap().is_none());
    let current = catalog.current_record(&identity("a")).unwrap().unwrap();
    assert_eq!(current.state, RecordState::Tombstoned);
    assert!(catalog.current_record(&identity("b")).unwrap().is_none());
}

fn fingerprint(length: u64) -> SourceFingerprint {
    SourceFingerprint::from_metadata(true, length, (5, 6), Some(1), Some(2)).unwrap()
}

#[test]
fn a_sighting_cancels_a_pending_deletion() {
    let registration =
        SourceRegistration::new("source", identity("a").producer_id(), "fixture", 1).unwrap();
    let grace = Some(TombstoneGrace::new(2, 0).unwrap());
    let mut catalog = Catalog::open_in_memory().unwrap();
    let scan = catalog.begin_source_scan(&registration).unwrap();
    catalog
        .observe_present_from_source(&scan, &registration, &identity("a"), &location("a"), bytes("x"))
        .unwrap();
    catalog.complete_source_scan(&scan, grace, 10).unwrap();
    let missed = catalog.begin_source_scan(&registration).unwrap();
    assert!(catalog.complete_source_scan(&missed, grace, 20).unwrap().is_empty());
    assert_eq!(catalog.candidates.len(), 1);
    let seen = catalog.begin_source_scan(&registration).unwrap();
    catalog
        .mark_source_record_seen(&seen, &registration, &identity("a"))
        .unwrap();
    assert!(catalog.candidates.is_empty());
    catalog.complete_source_scan(&seen, grace, 30).unwrap();
    let missed = catalog.begin_source_scan(&registration).unwrap();
    assert!(catalog.complete_source_scan(&missed, grace, 40).unwrap().is_empty());
}

#[test]
fn a_completed_scan_is_over() {
    let registration =
        SourceRegistration::new("source", identity("a").producer_id(), "fixture", 1).unwrap();
    let mut catalog = Catalog::open_in_memory().unwrap();
    let scan = catalog.begin_source_scan(&registration).unwrap();
    assert_eq!(scan.generation(), 1);
    catalog.complete_source_scan(&scan, None, 10).unwrap();
    assert!(matches!(
        catalog.complete_source_scan(&scan, None, 20),
        Err(CatalogError::SourceScanConflict(_))
    ));
    assert!(matches!(
        catalog.observe_source_fingerprint(&scan, &location("a"), &fingerprint(1)),
        Err(CatalogError::SourceScanConflict(_))
    ));
    let other =
        SourceRegistration::new("source", identity("a").producer_id(), "fixture", 2).unwrap();
    assert!(matches!(
        catalog.begin_source_scan(&other),
        Err(CatalogError::SourceRegistrationConflict(_))
    ));
}

#[test]
fn a_changed_fingerprint_starts_over() {
    let registration =
        SourceRegistration::new("source", identity("a").producer_id(), "fixture", 1).unwrap();
    let mut catalog = Catalog::open_in_memory().unwrap();
    let mut counts = Vec::new();
    for length in [1, 1, 1, 2, 2] {
        let scan = catalog.begin_source_scan(&registration).unwrap();
        let seen = catalog
            .observe_source_fingerprint(&scan, &location("a"), &fingerprint(length))
            .unwrap();
        counts.push((seen.unchanged_observations, seen.needs_hash));
        if counts.len() == 2 {
            catalog.mark_source_fingerprint_hashed(&scan, &location("a")).unwrap();
        }
        catalog.complete_source_scan(&scan, None, 10).unwrap();
    }
    assert_eq!(counts, vec![(1, true), (2, true), (3, false), (1, true), (2, true)]);
}

#[test]
fn a_lease_is_settled_once() {
    let (mut catalog, id) = subscribed(RetryPolicy::default());
    catalog
        .observe_present_at(&identity("a"), &location("a"), bytes("x"), 1)
        .unwrap();
    let lease = catalog.lease_next(id, 10, 100).unwrap().unwrap();
    catalog
        .settle_delivery(&lease, DeliveryOutcome::Superseded, 20, None)
        .unwrap();
    assert_eq!(
        catalog
            .settle_delivery(&lease, DeliveryOutcome::Acknowledged, 21, None)
            .unwrap_err(),
        DeliveryError::StaleLease
    );
    assert_eq!(catalog.retry_delivery(&lease, 21).unwrap_err(), DeliveryError::StaleLease);
    assert_eq!(catalog.delivery_counts(id).unwrap().superseded, 1);
}

#[test]
fn a_blocked_delivery_holds_back_later_versions() {
    let (mut catalog, id) = subscribed(RetryPolicy::default());
    catalog
        .observe_present_at(&identity("a"), &location("a"), bytes("x"), 1)
        .unwrap();
    catalog
        .observe_present_at(&identity("a"), &location("a"), bytes("y"), 2)
        .unwrap();
    catalog
        .observe_present_at(&identity("b"), &location("b"), bytes("z"), 3)
        .unwrap();
    let lease = catalog.lease_next(id, 10, 100).unwrap().unwrap();
    catalog.block_delivery(&lease, 11, "held by an operator").unwrap();
    let next = catalog.lease_next(id, 12, 100).unwrap().unwrap();
    assert_ne!(next.record_id, lease.record_id);
    catalog
        .settle_delivery(&next, DeliveryOutcome::Acknowledged, 13, None)
        .unwrap();
    assert!(catalog.lease_next(id, 14, 100).unwrap().is_none());
    assert_eq!(catalog.delivery_counts(id).unwrap().blocked, 1);
}

#[test]
fn pausing_and_resuming_gives_the_catalog_back() {
    let (mut catalog, id) = subscribed(RetryPolicy::default());
    catalog
        .observe_present_at(&identity("a"), &location("a"), bytes("x"), 1)
        .unwrap();
    let before = catalog.clone();
    catalog.set_subscription_enabled(id, false).unwrap();
    assert!(catalog != before);
    catalog.set_subscription_enabled(id, true).unwrap();
    assert!(catalog == before);
    let unknown = SubscriptionId::from_uuid(Uuid::from_u128(99));
    assert_eq!(
        catalog.set_subscription_enabled(unknown, true).unwrap_err(),
        DeliveryError::UnknownSubscription
    );
    assert_eq!(
        catalog.lease_next(unknown, 1, 1).unwrap_err(),
        DeliveryError::UnknownSubscription
    );
    assert_eq!(
        catalog.lease_next(id, i64::MAX, 1).unwrap_err(),
        DeliveryError::InvalidLeaseDuration
    );
}

#[test]
fn a_rebuilt_epoch_covers_the_active_records() {
    let mut catalog = Catalog::open_in_memory().unwrap();
    for key in ["a", "b", "c"] {
        catalog
            .observe_present_at(&identity(key), &location(key), bytes(key), 1)
            .unwrap();
    }
    catalog.tombstone_at(&identity("b"), 2).unwrap();
    let subscription = catalog
        .create_subscription(
            SubscriptionConfig::new("consumer", 5, true, true).unwrap(),
            SubscriptionMode::RebuildCurrent,
            3,
        )
        .unwrap();
    assert_eq!(catalog.delivery_counts(subscription.id).unwrap().queued, 2);
    let first = catalog.lease_next(subscription.id, 4, 10).unwrap().unwrap();
    assert!(first.is_snapshot);
    assert_eq!(first.event_sequence, None);
}

#[test]
fn a_scrub_remembers_its_place() {
    let registration =
        SourceRegistration::new("source", identity("a").producer_id(), "fixture", 1).unwrap();
    let mut catalog = Catalog::open_in_memory().unwrap();
    let scan = catalog.begin_source_scan(&registration).unwrap();
    catalog
        .observe_present_from_source(&scan, &registration, &identity("a"), &location("a"), bytes("x"))
        .unwrap();
    let progress = catalog.source_scrub_progress("source").unwrap();
    assert_eq!((progress.completed_cycles, progress.next_after), (0, None));
    catalog
        .advance_source_scrub("source", Some(&location("a")), false, 10)
        .unwrap();
    let progress = catalog.source_scrub_progress("source").unwrap();
    assert_eq!(progress.next_after, Some(location("a")));
    catalog.advance_source_scrub("source", None, true, 20).unwrap();
    let progress = catalog.source_scrub_progress("source").unwrap();
    assert_eq!(progress.completed_cycles, 1);
    assert_eq!(progress.last_completed_at_ms, Some(20));
    let drift = catalog
        .observe_scrubbed_present_at("source", &identity("a"), &location("a"), bytes("y"), 30)
        .unwrap()
        .unwrap();
    assert_eq!(drift[0].kind, EventKind::RevisionCommitted);
    assert!(catalog
        .observe_scrubbed_present_at("source", &identity("b"), &location("b"), bytes("y"), 31)
        .unwrap()
        .is_none());
}

#[test]
fn a_move_makes_no_revision_and_a_rewrite_makes_one() {
    let mut catalog = Catalog::open_in_memory().unwrap();
    let mut observe = |path: &str, content: &str, start: u128| {
        let events = catalog
            .observe_present_with(&identity("a"), &location(path), bytes(content), 1, ids(start))
            .unwrap();
        let kinds: Vec<EventKind> = events.iter().map(|event| event.kind).collect();
        (kinds, catalog.records.len(), catalog.revisions.len())
    };
    assert_eq!(observe("a", "x", 100), (vec![EventKind::RevisionCommitted], 1, 1));
    assert_eq!(observe("b", "x", 200), (vec![EventKind::LocationChanged], 1, 1));
    assert_eq!(observe("b", "y", 300), (vec![EventKind::RevisionCommitted], 1, 2));
    assert_eq!(observe("b", "x", 400), (vec![EventKind::RevisionCommitted], 1, 2));
    assert_eq!(observe("b", "x", 500), (vec![], 1, 2));
}

#[test]
fn leases_never_share_a_record() {
    let mut catalog = Catalog::open_in_memory().unwrap();
    let subscription = catalog
        .create_subscription(
            SubscriptionConfig::new("consumer", 8, true, true).unwrap(),
            SubscriptionMode::ReplayEvents,
            0,
        )
        .unwrap();
    for (key, content, start) in [("a", "1", 100), ("a", "2", 200), ("b", "1", 300)] {
        catalog
            .observe_present_with(&identity(key), &location(key), bytes(content), 1, ids(start))
            .unwrap();
    }
    let first = catalog.lease_next(subscription.id, 10, 100).unwrap().unwrap();
    let second = catalog.lease_next(subscription.id, 10, 100).unwrap().unwrap();
    assert_ne!(first.record_id, second.record_id);
    assert_eq!((first.record_version, second.record_version), (1, 1));
    assert!(catalog.lease_next(subscription.id, 10, 100).unwrap().is_none());
    catalog.settle_delivery(&first, DeliveryOutcome::Acknowledged, 11, None).unwrap();
    let third = catalog.lease_next(subscription.id, 12, 100).unwrap().unwrap();
    assert_eq!((third.record_id, third.record_version), (first.record_id, 2));
}
