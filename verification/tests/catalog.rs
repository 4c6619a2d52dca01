use agent_bookkeeper::backup::{write_backup_manifest, DestinationState};
use agent_bookkeeper::{
    CanonicalRevision, Catalog, CatalogError, EventKind, LogicalLocation, ProducerId,
    RecordIdentity, RecordState, SourceRegistration, SubscriptionConfig, SubscriptionMode,
    TombstoneGrace,
};

fn identity() -> RecordIdentity {
    RecordIdentity::new(
        ProducerId::new(),
        "codex",
        "session-a",
        "transcript",
        "primary",
    )
    .unwrap()
}

fn location(path: &str) -> LogicalLocation {
    LogicalLocation::new("active", path).unwrap()
}

#[test]
fn schema_and_unchanged_observation_are_stable() {
    let mut catalog = Catalog::open_in_memory().unwrap();
    assert_eq!(catalog.schema_version().unwrap(), 7);
    let identity = identity();
    let revision = CanonicalRevision::from_bytes(b"first\n");

    let first = catalog
        .observe_present_at(&identity, &location("sessions/a.jsonl"), revision, 100)
        .unwrap();
    let unchanged = catalog
        .observe_present_at(&identity, &location("sessions/a.jsonl"), revision, 200)
        .unwrap();

    assert_eq!(first.len(), 1);
    assert_eq!(first[0].kind, EventKind::RevisionCommitted);
    assert!(unchanged.is_empty());
    assert_eq!(catalog.events_after(0).unwrap().len(), 1);
}

#[test]
fn moves_and_rewrites_preserve_identity_and_increment_versions() {
    let mut catalog = Catalog::open_in_memory().unwrap();
    let identity = identity();
    let first_revision = CanonicalRevision::from_bytes(b"first\n");
    let second_revision = CanonicalRevision::from_bytes(b"first\nsecond\n");

    let initial = catalog
        .observe_present_at(&identity, &location("active/a.jsonl"), first_revision, 100)
        .unwrap();
    let moved = catalog
        .observe_present_at(
            &identity,
            &location("archived/a.jsonl"),
            first_revision,
            200,
        )
        .unwrap();
    let rewritten = catalog
        .observe_present_at(
            &identity,
            &location("archived/a.jsonl"),
            second_revision,
            300,
        )
        .unwrap();
    let events = catalog.events_after(0).unwrap();
    let current = catalog.current_record(&identity).unwrap().unwrap();

    assert_eq!(initial[0].kind, EventKind::RevisionCommitted);
    assert_eq!(moved[0].kind, EventKind::LocationChanged);
    assert_eq!(rewritten[0].kind, EventKind::RevisionCommitted);
    assert_eq!(
        events
            .iter()
            .map(|event| event.sequence)
            .collect::<Vec<_>>(),
        vec![1, 2, 3]
    );
    assert_eq!(current.record_version, 3);
    assert_eq!(current.location.source_relative_path(), "archived/a.jsonl");
    assert_eq!(current.revision, Some(second_revision));
}

#[test]
fn tombstone_and_restore_cannot_reuse_an_old_record_version() {
    let mut catalog = Catalog::open_in_memory().unwrap();
    let identity = identity();
    let revision = CanonicalRevision::from_bytes(b"first\n");

    catalog
        .observe_present_at(&identity, &location("active/a.jsonl"), revision, 100)
        .unwrap();
    let tombstone = catalog.tombstone_at(&identity, 200).unwrap().unwrap();
    let restore = catalog
        .observe_present_at(&identity, &location("archived/a.jsonl"), revision, 300)
        .unwrap();
    let current = catalog.current_record(&identity).unwrap().unwrap();

    assert_eq!(tombstone.kind, EventKind::RecordTombstoned);
    assert_eq!(tombstone.record_version, 2);
    assert_eq!(restore.len(), 1);
    assert_eq!(restore[0].kind, EventKind::RecordRestored);
    assert_eq!(restore[0].record_version, 3);
    assert_eq!(current.state, RecordState::Active);
    assert_eq!(current.record_version, 3);
}

#[test]
fn one_session_can_have_multiple_stable_record_keys() {
    let mut catalog = Catalog::open_in_memory().unwrap();
    let producer = ProducerId::new();
    let transcript =
        RecordIdentity::new(producer, "codex", "session-a", "transcript", "primary").unwrap();
    let sidecar =
        RecordIdentity::new(producer, "codex", "session-a", "metadata", "primary").unwrap();
    let revision = CanonicalRevision::from_bytes(b"same bytes");

    catalog
        .observe_present_at(&transcript, &location("a.jsonl"), revision, 100)
        .unwrap();
    catalog
        .observe_present_at(&sidecar, &location("a.meta.json"), revision, 200)
        .unwrap();

    assert_eq!(catalog.events_after(0).unwrap().len(), 2);
    assert_ne!(
        catalog.current_record(&transcript).unwrap().unwrap().id,
        catalog.current_record(&sidecar).unwrap().unwrap().id
    );
}

#[test]
fn source_tombstone_requires_both_complete_scan_and_elapsed_grace() {
    let mut catalog = Catalog::open_in_memory().unwrap();
    let producer = ProducerId::new();
    let registration = SourceRegistration::new("source-a", producer, "fixture", 1).unwrap();
    let identity =
        RecordIdentity::new(producer, "codex", "session-a", "transcript", "primary").unwrap();
    let location = location("active/a.jsonl");
    let revision = CanonicalRevision::from_bytes(b"first\n");
    let grace = TombstoneGrace::new(2, 100).unwrap();

    let first = catalog.begin_source_scan(&registration).unwrap();
    catalog
        .observe_present_from_source(&first, &registration, &identity, &location, revision)
        .unwrap();
    assert!(
        catalog
            .complete_source_scan(&first, Some(grace), 100)
            .unwrap()
            .is_empty()
    );

    let second = catalog.begin_source_scan(&registration).unwrap();
    assert!(
        catalog
            .complete_source_scan(&second, Some(grace), 110)
            .unwrap()
            .is_empty()
    );
    let third = catalog.begin_source_scan(&registration).unwrap();
    assert!(
        catalog
            .complete_source_scan(&third, Some(grace), 199)
            .unwrap()
            .is_empty()
    );
    let fourth = catalog.begin_source_scan(&registration).unwrap();
    let tombstones = catalog
        .complete_source_scan(&fourth, Some(grace), 210)
        .unwrap();

    assert_eq!(tombstones.len(), 1);
    assert_eq!(tombstones[0].kind, EventKind::RecordTombstoned);
}

#[test]
fn stale_source_scan_cannot_complete_after_a_newer_generation_starts() {
    let mut catalog = Catalog::open_in_memory().unwrap();
    let registration =
        SourceRegistration::new("source-a", ProducerId::new(), "fixture", 1).unwrap();
    let first = catalog.begin_source_scan(&registration).unwrap();
    let second = catalog.begin_source_scan(&registration).unwrap();

    assert!(matches!(
        catalog.complete_source_scan(&first, None, 100),
        Err(CatalogError::SourceScanConflict(_))
    ));
    assert!(
        catalog
            .complete_source_scan(&second, None, 100)
            .unwrap()
            .is_empty()
    );
}

#[test]
fn file_catalog_reopens_with_its_ordered_event_history() {
    let identity = identity();
    let revision = CanonicalRevision::from_bytes(b"durable\n");

    let stored = {
        let mut catalog = Catalog::from_columns(
            &Catalog::open_in_memory().unwrap().to_columns(),
        )
        .unwrap();
        catalog
            .observe_present_at(&identity, &location("sessions/a.jsonl"), revision, 100)
            .unwrap();
        catalog.to_columns()
    };

    let catalog = Catalog::from_columns(&stored).unwrap();
    let events = catalog.events_after(0).unwrap();
    let current = catalog.current_record(&identity).unwrap().unwrap();

    assert_eq!(events.len(), 1);
    assert_eq!(events[0].sequence, 1);
    assert_eq!(current.revision, Some(revision));
}

#[test]
fn sqlite_aware_backup_and_restore_preserve_delivery_state() {
    let free = DestinationState { parent_is_directory: true, taken: false };
    let backup_path = "/recovery/backup.sqlite3";
    let restored_path = "/recovery/restored.sqlite3";
    let source_configuration_digest = [42_u8; 32];
    let identity = identity();
    let revision = CanonicalRevision::from_bytes(b"durable backup\n");

    let mut catalog = Catalog::open_in_memory().unwrap();
    let subscription = catalog
        .create_subscription(
            SubscriptionConfig::new("backup-fixture", 1, true, true).unwrap(),
            SubscriptionMode::ReplayEvents,
            0,
        )
        .unwrap();
    catalog
        .observe_present_at(&identity, &location("sessions/a.jsonl"), revision, 100)
        .unwrap();
    catalog
        .lease_next(subscription.id, 110, 100)
        .unwrap()
        .unwrap();

    let (artifact, stored) = catalog
        .backup_to(backup_path, free, source_configuration_digest, 120)
        .unwrap();
    assert_eq!(artifact.catalog_path, backup_path);
    assert_eq!(artifact.manifest_path, "/recovery/backup.sqlite3.metadata.json");
    assert_eq!(artifact.metadata.latest_event_sequence, 1);
    assert_eq!(stored.manifest, write_backup_manifest(&artifact.metadata));

    assert!(matches!(
        Catalog::validate_backup(backup_path, true, &stored, &[0_u8; 32]),
        Some(Err(CatalogError::BackupSourceConfigurationMismatch))
    ));
    let validated =
        Catalog::validate_backup(backup_path, true, &stored, &source_configuration_digest)
            .unwrap()
            .unwrap();
    assert_eq!(validated, artifact);
    let (restored, copy) = Catalog::restore_backup_to(
        backup_path,
        true,
        stored,
        restored_path,
        free,
        &source_configuration_digest,
    )
    .unwrap()
    .unwrap();
    assert_eq!(restored.catalog_path, restored_path);
    assert_eq!(restored.manifest_path, "/recovery/restored.sqlite3.metadata.json");
    assert_eq!(restored.metadata, artifact.metadata);

    let restored_catalog = Catalog::from_columns(&copy.columns).unwrap();
    assert_eq!(restored_catalog.events_after(0).unwrap().len(), 1);
    assert_eq!(
        restored_catalog
            .current_record(&identity)
            .unwrap()
            .unwrap()
            .revision,
        Some(revision)
    );
    let counts = restored_catalog.delivery_counts(subscription.id).unwrap();
    assert_eq!(counts.leased, 1);

    let taken = DestinationState { parent_is_directory: true, taken: true };
    assert!(matches!(
        Catalog::restore_backup_to(
            restored_path,
            true,
            copy,
            restored_path,
            taken,
            &source_configuration_digest,
        ),
        Some(Err(CatalogError::BackupDestinationExists(_)))
    ));
}

#[test]
fn the_clock_stamps_what_is_observed_and_completed_now() {
    let mut catalog = Catalog::open_in_memory().unwrap();
    let producer = ProducerId::new();
    let registration = SourceRegistration::new("source-a", producer, "fixture", 1).unwrap();
    let identity =
        RecordIdentity::new(producer, "codex", "session-a", "transcript", "primary").unwrap();
    let grace = TombstoneGrace::new(1, 0).unwrap();

    let first = catalog.begin_source_scan(&registration).unwrap();
    let seen = catalog
        .observe_present(&identity, &location("a.jsonl"), CanonicalRevision::from_bytes(b"a"))
        .unwrap();
    assert!(seen[0].committed_at_ms > 0);
    catalog.mark_source_record_seen(&first, &registration, &identity).unwrap();
    assert!(catalog.complete_source_scan_now(&first, Some(grace)).unwrap().is_empty());

    let second = catalog.begin_source_scan(&registration).unwrap();
    let gone = catalog.complete_source_scan_now(&second, Some(grace)).unwrap();
    assert_eq!(gone.len(), 1);
    assert_eq!(gone[0].kind, EventKind::RecordTombstoned);
    assert!(gone[0].committed_at_ms >= seen[0].committed_at_ms);
}
