use agent_bookkeeper::rows::{digest_from_blob, uuid_from_blob, CatalogColumns};
use agent_bookkeeper::{
    CanonicalRevision, Catalog, CatalogError, DomainError, LogicalLocation, ProducerId,
    RecordIdentity, SourceFingerprint, SourceRegistration, SubscriptionConfig, SubscriptionMode,
    TombstoneGrace,
};

/// A catalog with a row in every table.
fn full() -> Catalog {
    let mut catalog = Catalog::open_in_memory().unwrap();
    let producer = ProducerId::new();
    let identity =
        RecordIdentity::new(producer, "codex", "session-a", "transcript", "primary").unwrap();
    let location = LogicalLocation::new("active", "sessions/a.jsonl").unwrap();
    let registration = SourceRegistration::new("source", producer, "fixture", 1).unwrap();
    let subscription = catalog
        .create_subscription(
            SubscriptionConfig::new("consumer", 2, true, false).unwrap(),
            SubscriptionMode::ReplayEvents,
            5,
        )
        .unwrap();
    let scan = catalog.begin_source_scan(&registration).unwrap();
    let fingerprint =
        SourceFingerprint::from_metadata(true, 6, (-3, 7), Some(1), None).unwrap();
    catalog
        .observe_source_fingerprint(&scan, &location, &fingerprint)
        .unwrap();
    catalog
        .observe_present_from_source(
            &scan,
            &registration,
            &identity,
            &location,
            CanonicalRevision::from_bytes(b"first\n"),
        )
        .unwrap();
    catalog.mark_source_fingerprint_hashed(&scan, &location).unwrap();
    catalog.complete_source_scan(&scan, None, 9).unwrap();
    catalog
        .advance_source_scrub("source", Some(&location), false, 10)
        .unwrap();
    let empty = catalog.begin_source_scan(&registration).unwrap();
    catalog
        .complete_source_scan(&empty, Some(TombstoneGrace::new(3, 0).unwrap()), 20)
        .unwrap();
    let scan = catalog.begin_source_scan(&registration).unwrap();
    catalog
        .observe_source_fingerprint(&scan, &location, &fingerprint)
        .unwrap();
    catalog.lease_next(subscription.id, 30, 40).unwrap().unwrap();
    catalog
}

#[test]
fn a_stored_catalog_reads_back() {
    let catalog = full();
    let stored = catalog.to_columns();
    assert_eq!(stored.records.len(), 1);
    assert_eq!(stored.revisions.len(), 1);
    assert_eq!(stored.events.len(), 1);
    assert_eq!(stored.sources.len(), 1);
    assert_eq!(stored.observations.len(), 1);
    assert_eq!(stored.source_records.len(), 1);
    assert_eq!(stored.candidates.len(), 1);
    assert_eq!(stored.scrubs.len(), 1);
    assert_eq!(stored.subscriptions.len(), 1);
    assert_eq!(stored.deliveries.len(), 1);
    assert_eq!(stored.deliveries[0].state, "leased");
    assert_eq!(stored.records[0].id.len(), 16);
    assert!(Catalog::from_columns(&stored).unwrap() == catalog);
}

fn refusal(change: fn(&mut CatalogColumns)) -> CatalogError {
    let mut stored = full().to_columns();
    change(&mut stored);
    Catalog::from_columns(&stored).unwrap_err()
}

fn corrupt(reason: &str) -> CatalogError {
    CatalogError::Corrupt(reason.to_owned())
}

#[test]
fn rows_that_cannot_be_are_refused() {
    assert_eq!(refusal(|c| c.records[0].id.clear()), corrupt("invalid UUID blob"));
    assert_eq!(
        refusal(|c| c.records[0].session_id.clear()),
        CatalogError::Domain(DomainError::InvalidIdentifier { field: "session_id" })
    );
    assert_eq!(
        refusal(|c| c.records[0].record_version = -1),
        corrupt("negative record version")
    );
    assert_eq!(
        refusal(|c| c.records[0].state = "lost".to_owned()),
        CatalogError::Domain(DomainError::CorruptState("lost".to_owned()))
    );
    assert!(matches!(
        refusal(|c| c.records[0].source_relative_path = "../a".to_owned()),
        CatalogError::Domain(DomainError::InvalidLocation(_))
    ));
    assert_eq!(
        refusal(|c| c.revisions[0].byte_length = -6),
        corrupt("negative revision byte length")
    );
    assert_eq!(
        refusal(|c| c.revisions[0].digest.push(0)),
        corrupt("invalid BLAKE3 digest length")
    );
    assert_eq!(
        refusal(|c| c.events[0].root_role = None),
        corrupt("incomplete event location")
    );
    assert_eq!(
        refusal(|c| c.events[0].kind = "renamed".to_owned()),
        CatalogError::Domain(DomainError::CorruptState("renamed".to_owned()))
    );
    assert_eq!(
        refusal(|c| c.sources[0].identity_schema_version = -1),
        corrupt("invalid identity schema version")
    );
    assert_eq!(
        refusal(|c| c.scrubs[0].cursor_root_role = None),
        corrupt("incomplete source scrub cursor")
    );
    assert_eq!(
        refusal(|c| c.subscriptions[0].mode = "none".to_owned()),
        corrupt("unknown subscription mode \"none\"")
    );
    assert_eq!(
        refusal(|c| c.subscriptions[0].enabled = 2),
        corrupt("invalid enabled value")
    );
    assert_eq!(
        refusal(|c| c.deliveries[0].attempts = -1),
        corrupt("invalid delivery attempts")
    );
    assert_eq!(
        refusal(|c| c.deliveries[0].state = "gone".to_owned()),
        corrupt("unknown delivery state \"gone\"")
    );
    assert_eq!(
        refusal(|c| c.deliveries[0].id = 0),
        corrupt("stored rows are out of range or out of order")
    );
}

#[test]
fn blobs_have_their_length() {
    assert_eq!(uuid_from_blob(&[0; 16]).unwrap().as_u128(), 0);
    assert_eq!(uuid_from_blob(&[0; 17]).unwrap_err(), corrupt("invalid UUID blob"));
    assert_eq!(digest_from_blob(&[9; 32]).unwrap(), [9; 32]);
    assert!(digest_from_blob(&[9; 31]).is_err());
}
