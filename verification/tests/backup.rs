use agent_bookkeeper::backup::{
    backup_manifest_path, check_backup_manifest, hex_decode_32, is_uncuttable, pending_migrations,
    read_backup_manifest, temporary_backup_path, temporary_backup_path_with,
    write_backup_manifest, DestinationState,
};
use agent_bookkeeper::ident::Uuid;
use agent_bookkeeper::{BackupArtifact, BackupMetadata, Catalog, CatalogError};

const FREE: DestinationState = DestinationState { parent_is_directory: true, taken: false };

fn metadata() -> BackupMetadata {
    BackupMetadata {
        format_version: 1,
        created_at_ms: -5,
        schema_version: 7,
        latest_event_sequence: 12,
        source_configuration_digest: [0xab; 32],
    }
}

#[test]
fn a_manifest_reads_back() {
    let bytes = write_backup_manifest(&metadata());
    let expected = format!(
        "{{\"format_version\":1,\"created_at_ms\":-5,\"schema_version\":7,\"latest_event_sequence\":12,\"source_configuration_digest\":\"{}\"}}\n",
        "ab".repeat(32)
    );
    assert_eq!(bytes, expected.as_bytes());
    assert_eq!(read_backup_manifest(&bytes).unwrap().unwrap(), metadata());
}

fn refusal(manifest: &str) -> String {
    match read_backup_manifest(manifest.as_bytes()).unwrap().unwrap_err() {
        CatalogError::BackupManifestInvalid(reason) => reason,
        other => panic!("{other:?}"),
    }
}

#[test]
fn an_incomplete_manifest_is_refused() {
    let digest = "0".repeat(64);
    assert!(!refusal("{").is_empty());
    assert_eq!(refusal("[]"), "manifest must be a JSON object");
    assert_eq!(refusal("{}"), "manifest format_version is missing");
    assert_eq!(refusal("{\"format_version\":1}"), "manifest created_at_ms is missing");
    assert_eq!(
        refusal("{\"format_version\":1,\"created_at_ms\":0}"),
        "manifest schema_version is missing"
    );
    assert_eq!(
        refusal("{\"format_version\":1,\"created_at_ms\":0,\"schema_version\":7}"),
        "manifest latest_event_sequence is missing"
    );
    let head = "{\"format_version\":1,\"created_at_ms\":0,\"schema_version\":7,\"latest_event_sequence\":0";
    assert_eq!(
        refusal(&format!("{head}}}")),
        "manifest source_configuration_digest is missing"
    );
    assert_eq!(
        refusal(&format!("{head},\"source_configuration_digest\":\"00\"}}")),
        "manifest digest has the wrong length"
    );
    assert_eq!(
        refusal(&format!("{head},\"source_configuration_digest\":\"{}\"}}", "g".repeat(64))),
        "manifest digest is not hexadecimal"
    );
    let newer = format!("{head},\"source_configuration_digest\":\"{digest}\"}}").replace(
        "\"format_version\":1",
        "\"format_version\":2",
    );
    assert_eq!(refusal(&newer), "unsupported backup manifest version 2");
}

#[test]
fn digests_are_read_pair_by_pair() {
    assert_eq!(hex_decode_32(&"fF".repeat(32)), Ok([255; 32]));
    assert_eq!(hex_decode_32(&"+7".repeat(32)), Ok([7; 32]));
    assert!(hex_decode_32(&"-7".repeat(32)).is_err());
    assert!(hex_decode_32(&"é".repeat(32)).is_err());
    let split = format!("a{}a", "é".repeat(31));
    assert!(is_uncuttable(&split));
    let manifest = format!(
        "{{\"format_version\":1,\"created_at_ms\":0,\"schema_version\":7,\"latest_event_sequence\":0,\"source_configuration_digest\":\"{split}\"}}"
    );
    assert!(read_backup_manifest(manifest.as_bytes()).is_none());
}

#[test]
fn a_backup_never_replaces_anything() {
    let catalog = Catalog::open_in_memory().unwrap();
    let taken = DestinationState { parent_is_directory: true, taken: true };
    assert_eq!(
        catalog.backup_to("/b/c.sqlite3", taken, [0; 32], 1),
        Err(CatalogError::BackupDestinationExists("/b/c.sqlite3".to_owned()))
    );
    for (path, state, reason) in [
        ("b/c", FREE, "backup destination must be an absolute path"),
        ("/", FREE, "backup destination must have a parent directory"),
        ("/a/..", FREE, "backup destination filename must be UTF-8"),
        (
            "/a/b",
            DestinationState { parent_is_directory: false, taken: false },
            "backup destination parent must be a real directory",
        ),
    ] {
        assert_eq!(
            catalog.backup_to(path, state, [0; 32], 1),
            Err(CatalogError::InvalidBackupDestination(reason.to_owned()))
        );
    }
    let (_, stored) = catalog.backup_to("/b/c.sqlite3", FREE, [0; 32], 1).unwrap();
    assert_eq!(
        Catalog::restore_backup_to("/b/c.sqlite3", true, stored, "/b/d.sqlite3", taken, &[0; 32]),
        Some(Err(CatalogError::BackupDestinationExists("/b/d.sqlite3".to_owned())))
    );
}

#[test]
fn a_manifest_of_another_catalog_is_refused() {
    let catalog = Catalog::open_in_memory().unwrap();
    let (artifact, stored) = catalog.backup_to("/b/c.sqlite3", FREE, [3; 32], 1).unwrap();
    assert_eq!(stored.manifest, write_backup_manifest(&artifact.metadata));
    assert_eq!(
        Catalog::validate_backup("/b/c.sqlite3", true, &stored, &[3; 32]).unwrap(),
        Ok(BackupArtifact {
            catalog_path: artifact.catalog_path.clone(),
            manifest_path: artifact.manifest_path.clone(),
            metadata: read_backup_manifest(&stored.manifest).unwrap().unwrap(),
        })
    );
    let validate = |schema: i64, latest: i64| {
        check_backup_manifest("/b/c.sqlite3", true, &stored.manifest, &[3; 32])
            .unwrap()
            .unwrap()
            .confirm(schema, latest)
    };
    assert_eq!(validate(7, 0), Ok(artifact));
    assert_eq!(validate(6, 0), Err(CatalogError::BackupManifestMismatch));
    assert_eq!(validate(7, 1), Err(CatalogError::BackupManifestMismatch));
    assert_eq!(
        validate(7, -1),
        Err(CatalogError::Corrupt("negative backup event sequence".to_owned()))
    );
}

#[test]
fn backup_files_stand_beside_each_other() {
    assert_eq!(
        backup_manifest_path("/a/./b.sqlite3/").unwrap(),
        "/a/b.sqlite3.metadata.json"
    );
    assert_eq!(
        temporary_backup_path_with("/b.sqlite3", "catalog", Uuid::nil()).unwrap(),
        "/.b.sqlite3.catalog-00000000-0000-0000-0000-000000000000.partial"
    );
    let first = temporary_backup_path("/a/b", "restore").unwrap();
    assert!(first.starts_with("/a/.b.restore-") && first.ends_with(".partial"));
    assert_ne!(first, temporary_backup_path("/a/b", "restore").unwrap());
    assert!(temporary_backup_path("/", "restore").is_err());
}

#[test]
fn migrations_lead_to_the_current_layout() {
    assert_eq!(pending_migrations(0), Ok(vec![1, 2, 3, 4, 5, 6, 7]));
    assert_eq!(pending_migrations(-3), Ok(vec![1, 2, 3, 4, 5, 6, 7]));
    assert_eq!(pending_migrations(5), Ok(vec![6, 7]));
    assert_eq!(pending_migrations(7), Ok(vec![]));
    assert_eq!(
        pending_migrations(8),
        Err(CatalogError::NewerSchema { found: 8, supported: 7 })
    );
}
