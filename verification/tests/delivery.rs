use agent_bookkeeper::{
    CanonicalRevision, Catalog, DeliveryOutcome, EventKind, LogicalLocation, ProducerId,
    RecordIdentity, RetryPolicy, SubscriptionConfig, SubscriptionMode,
};

fn identity() -> RecordIdentity {
    RecordIdentity::new(
        ProducerId::new(),
        "codex",
        "session-a",
        "transcript",
        "primary",
    )
    .unwrap()
}

fn location() -> LogicalLocation {
    LogicalLocation::new("active", "sessions/a.jsonl").unwrap()
}

fn config() -> SubscriptionConfig {
    SubscriptionConfig::new("fake-consumer", 1, true, true).unwrap()
}

#[test]
fn later_record_versions_wait_for_the_prior_lease_to_settle() {
    let mut catalog = Catalog::open_in_memory().unwrap();
    let subscription = catalog
        .create_subscription(
            config().with_retry_policy(RetryPolicy::new(8, 0, 0).unwrap()),
            SubscriptionMode::ReplayEvents,
            0,
        )
        .unwrap();
    let identity = identity();
    catalog
        .observe_present_at(
            &identity,
            &location(),
            CanonicalRevision::from_bytes(b"first\n"),
            10,
        )
        .unwrap();
    catalog
        .observe_present_at(
            &identity,
            &location(),
            CanonicalRevision::from_bytes(b"first\nsecond\n"),
            20,
        )
        .unwrap();

    let first = catalog
        .lease_next(subscription.id, 30, 100)
        .unwrap()
        .unwrap();
    assert_eq!(first.record_version, 1);
    assert!(
        catalog
            .lease_next(subscription.id, 31, 100)
            .unwrap()
            .is_none()
    );
    catalog
        .settle_delivery(&first, DeliveryOutcome::Acknowledged, 40, None)
        .unwrap();
    let second = catalog
        .lease_next(subscription.id, 41, 100)
        .unwrap()
        .unwrap();

    assert_eq!(second.record_version, 2);
    assert_eq!(second.kind, EventKind::RevisionCommitted);
    assert_eq!(
        second.location.unwrap().source_relative_path(),
        "sessions/a.jsonl"
    );
}

#[test]
fn unrelated_records_can_use_the_configured_parallel_lease_budget() {
    let mut catalog = Catalog::open_in_memory().unwrap();
    let subscription = catalog
        .create_subscription(
            SubscriptionConfig::new("fake-consumer", 2, true, true).unwrap(),
            SubscriptionMode::ReplayEvents,
            0,
        )
        .unwrap();
    let first_identity = identity();
    let second_identity = identity();
    catalog
        .observe_present_at(
            &first_identity,
            &location(),
            CanonicalRevision::from_bytes(b"first\n"),
            10,
        )
        .unwrap();
    catalog
        .observe_present_at(
            &second_identity,
            &location(),
            CanonicalRevision::from_bytes(b"second\n"),
            20,
        )
        .unwrap();

    let first = catalog
        .lease_next(subscription.id, 30, 100)
        .unwrap()
        .unwrap();
    let second = catalog
        .lease_next(subscription.id, 31, 100)
        .unwrap()
        .unwrap();

    assert_ne!(first.record_id, second.record_id);
    assert!(
        catalog
            .lease_next(subscription.id, 32, 100)
            .unwrap()
            .is_none()
    );
}

#[test]
fn expired_lease_redelivers_with_the_same_event_id() {
    let mut catalog = Catalog::open_in_memory().unwrap();
    let subscription = catalog
        .create_subscription(
            config().with_retry_policy(RetryPolicy::new(8, 0, 0).unwrap()),
            SubscriptionMode::ReplayEvents,
            0,
        )
        .unwrap();
    let identity = identity();
    catalog
        .observe_present_at(
            &identity,
            &location(),
            CanonicalRevision::from_bytes(b"first\n"),
            10,
        )
        .unwrap();

    let first = catalog
        .lease_next(subscription.id, 20, 10)
        .unwrap()
        .unwrap();
    let redelivery = catalog
        .lease_next(subscription.id, 30, 10)
        .unwrap()
        .unwrap();

    assert_eq!(redelivery.event_id, first.event_id);
    assert_ne!(redelivery.token, first.token);
    assert_eq!(redelivery.attempt, 2);
}

#[test]
fn an_expired_lease_cannot_acknowledge_or_retry_before_scheduler_cleanup() {
    let mut catalog = Catalog::open_in_memory().unwrap();
    let subscription = catalog
        .create_subscription(
            config().with_retry_policy(RetryPolicy::new(8, 0, 0).unwrap()),
            SubscriptionMode::ReplayEvents,
            0,
        )
        .unwrap();
    let identity = identity();
    catalog
        .observe_present_at(
            &identity,
            &location(),
            CanonicalRevision::from_bytes(b"first\n"),
            10,
        )
        .unwrap();

    let lease = catalog
        .lease_next(subscription.id, 20, 10)
        .unwrap()
        .unwrap();
    assert!(
        catalog
            .settle_delivery(&lease, DeliveryOutcome::Acknowledged, 30, None)
            .is_err()
    );
    assert!(catalog.retry_delivery(&lease, 30).is_err());

    let replacement = catalog
        .lease_next(subscription.id, 30, 10)
        .unwrap()
        .unwrap();
    assert_eq!(replacement.event_id, lease.event_id);
    assert_eq!(replacement.attempt, 2);
}

#[test]
fn zero_duration_lease_is_rejected() {
    let mut catalog = Catalog::open_in_memory().unwrap();
    let subscription = catalog
        .create_subscription(config(), SubscriptionMode::ReplayEvents, 0)
        .unwrap();

    assert!(catalog.lease_next(subscription.id, 20, 0).is_err());
}

#[test]
fn retry_policy_applies_exponential_backoff_then_dead_letters() {
    let mut catalog = Catalog::open_in_memory().unwrap();
    let subscription = catalog
        .create_subscription(
            config().with_retry_policy(RetryPolicy::new(3, 10, 40).unwrap()),
            SubscriptionMode::ReplayEvents,
            0,
        )
        .unwrap();
    let identity = identity();
    catalog
        .observe_present_at(
            &identity,
            &location(),
            CanonicalRevision::from_bytes(b"first\n"),
            10,
        )
        .unwrap();

    let first = catalog
        .lease_next(subscription.id, 20, 100)
        .unwrap()
        .unwrap();
    catalog.retry_delivery(&first, 20).unwrap();
    assert!(
        catalog
            .lease_next(subscription.id, 29, 100)
            .unwrap()
            .is_none()
    );
    let second = catalog
        .lease_next(subscription.id, 30, 100)
        .unwrap()
        .unwrap();
    assert_eq!(second.attempt, 2);
    catalog.retry_delivery(&second, 30).unwrap();
    assert!(
        catalog
            .lease_next(subscription.id, 49, 100)
            .unwrap()
            .is_none()
    );
    let third = catalog
        .lease_next(subscription.id, 50, 100)
        .unwrap()
        .unwrap();
    assert_eq!(third.attempt, 3);
    catalog.retry_delivery(&third, 50).unwrap();

    assert!(
        catalog
            .lease_next(subscription.id, 100, 100)
            .unwrap()
            .is_none()
    );
    assert_eq!(
        catalog
            .delivery_counts(subscription.id)
            .unwrap()
            .dead_lettered,
        1
    );
}

#[test]
fn dead_letter_is_settled_but_keeps_later_record_versions_blocked() {
    let mut catalog = Catalog::open_in_memory().unwrap();
    let subscription = catalog
        .create_subscription(config(), SubscriptionMode::ReplayEvents, 0)
        .unwrap();
    let identity = identity();
    catalog
        .observe_present_at(
            &identity,
            &location(),
            CanonicalRevision::from_bytes(b"first\n"),
            10,
        )
        .unwrap();
    catalog
        .observe_present_at(
            &identity,
            &location(),
            CanonicalRevision::from_bytes(b"second\n"),
            20,
        )
        .unwrap();

    let first = catalog
        .lease_next(subscription.id, 30, 100)
        .unwrap()
        .unwrap();
    catalog
        .settle_delivery(
            &first,
            DeliveryOutcome::DeadLettered,
            40,
            Some("fixture failure"),
        )
        .unwrap();

    assert!(
        catalog
            .lease_next(subscription.id, 41, 100)
            .unwrap()
            .is_none()
    );
    let counts = catalog.delivery_counts(subscription.id).unwrap();
    assert_eq!(counts.dead_lettered, 1);
    assert_eq!(counts.queued, 1);
}

#[test]
fn subscription_epoch_rebuild_has_fresh_delivery_identity() {
    let mut catalog = Catalog::open_in_memory().unwrap();
    let identity = identity();
    catalog
        .observe_present_at(
            &identity,
            &location(),
            CanonicalRevision::from_bytes(b"first\n"),
            10,
        )
        .unwrap();
    let first_subscription = catalog
        .create_subscription(config(), SubscriptionMode::ReplayEvents, 20)
        .unwrap();
    let first = catalog
        .lease_next(first_subscription.id, 30, 100)
        .unwrap()
        .unwrap();
    catalog
        .settle_delivery(&first, DeliveryOutcome::Acknowledged, 40, None)
        .unwrap();

    let rebuilt = catalog
        .create_subscription(config(), SubscriptionMode::RebuildCurrent, 50)
        .unwrap();
    let snapshot = catalog.lease_next(rebuilt.id, 60, 100).unwrap().unwrap();

    assert_ne!(rebuilt.id, first_subscription.id);
    assert!(snapshot.is_snapshot);
    assert_ne!(snapshot.event_id, first.event_id);
    assert_eq!(snapshot.record_id, first.record_id);
}

#[test]
fn paused_subscription_keeps_queued_work_without_leasing_it() {
    let mut catalog = Catalog::open_in_memory().unwrap();
    let subscription = catalog
        .create_subscription(config(), SubscriptionMode::ReplayEvents, 0)
        .unwrap();
    let identity = identity();
    catalog
        .observe_present_at(
            &identity,
            &location(),
            CanonicalRevision::from_bytes(b"first\n"),
            10,
        )
        .unwrap();

    catalog
        .set_subscription_enabled(subscription.id, false)
        .unwrap();
    assert!(
        catalog
            .lease_next(subscription.id, 20, 100)
            .unwrap()
            .is_none()
    );
    assert_eq!(catalog.delivery_counts(subscription.id).unwrap().queued, 1);

    catalog
        .set_subscription_enabled(subscription.id, true)
        .unwrap();
    assert!(
        catalog
            .lease_next(subscription.id, 21, 100)
            .unwrap()
            .is_some()
    );
}

#[test]
fn replay_after_sequence_skips_old_events_but_subscribes_to_new_ones() {
    let mut catalog = Catalog::open_in_memory().unwrap();
    let identity = identity();
    catalog
        .observe_present_at(
            &identity,
            &location(),
            CanonicalRevision::from_bytes(b"first\n"),
            10,
        )
        .unwrap();
    let subscription = catalog
        .create_subscription(
            config().with_replay_after_sequence(1),
            SubscriptionMode::ReplayEvents,
            20,
        )
        .unwrap();
    assert_eq!(subscription.replay_after_sequence, 1);
    assert!(
        catalog
            .lease_next(subscription.id, 30, 100)
            .unwrap()
            .is_none()
    );

    catalog
        .observe_present_at(
            &identity,
            &location(),
            CanonicalRevision::from_bytes(b"second\n"),
            40,
        )
        .unwrap();
    let lease = catalog
        .lease_next(subscription.id, 50, 100)
        .unwrap()
        .unwrap();

    assert_eq!(lease.record_version, 2);
    assert_eq!(lease.event_sequence, Some(2));
}

#[test]
fn unsupported_tombstone_is_blocked_instead_of_silently_settled() {
    let mut catalog = Catalog::open_in_memory().unwrap();
    let no_tombstones = SubscriptionConfig::new("fake-consumer", 1, true, false).unwrap();
    let subscription = catalog
        .create_subscription(no_tombstones, SubscriptionMode::ReplayEvents, 0)
        .unwrap();
    let identity = identity();
    catalog
        .observe_present_at(
            &identity,
            &location(),
            CanonicalRevision::from_bytes(b"first\n"),
            10,
        )
        .unwrap();
    let revision = catalog
        .lease_next(subscription.id, 20, 100)
        .unwrap()
        .unwrap();
    catalog
        .settle_delivery(&revision, DeliveryOutcome::Acknowledged, 30, None)
        .unwrap();
    catalog.tombstone_at(&identity, 40).unwrap();

    assert!(
        catalog
            .lease_next(subscription.id, 50, 100)
            .unwrap()
            .is_none()
    );
    let counts = catalog.delivery_counts(subscription.id).unwrap();
    assert_eq!(counts.blocked, 1);
}
