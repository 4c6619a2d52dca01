use agent_bookkeeper::ident::Uuid;
use agent_bookkeeper::payload::{is_owned_materialization_name, Removal};
use agent_bookkeeper::{
    CanonicalRevision, CurrentExternalRevision, MaterializationCache, MaterializationLimits,
    MaterializedLease, PayloadError, SourceFingerprint,
};

/// A file that can be replaced under its path and changed in place.
#[derive(Clone)]
struct OpenFile {
    bytes: Vec<u8>,
    inode: u64,
    modified: i64,
}

impl OpenFile {
    fn new(bytes: &[u8]) -> OpenFile {
        OpenFile { bytes: bytes.to_vec(), inode: 2, modified: 1 }
    }

    fn overwrite(&mut self, bytes: &[u8]) {
        self.bytes = bytes.to_vec();
        self.modified += 1;
    }

    fn fingerprint(&self) -> SourceFingerprint {
        SourceFingerprint::from_metadata(
            true,
            self.bytes.len() as u64,
            (self.modified, 0),
            Some(1),
            Some(self.inode),
        )
        .unwrap()
    }
}

fn materialize(
    cache: &mut MaterializationCache,
    external: &CurrentExternalRevision,
    file: &OpenFile,
) -> Result<(MaterializedLease, Vec<u8>), PayloadError> {
    let expected = external.expected();
    cache.reserve(expected.byte_length())?;
    let copied = (|| {
        let mut reader = external.open(true, file.fingerprint())?;
        reader.absorb(&file.bytes)?;
        reader.finish(&file.fingerprint())
    })();
    if let Err(error) = copied {
        cache.release_reservation(expected.byte_length());
        return Err(error);
    }
    let path = cache.payload_path(&expected, Uuid::new_v4());
    Ok((MaterializedLease::new(&path, expected), file.bytes.clone()))
}

#[test]
fn held_descriptor_survives_atomic_path_replacement() {
    let held = OpenFile::new(b"original\n");
    let expected = CanonicalRevision::from_bytes(b"original\n");
    let external = CurrentExternalRevision::new("/root", "sessions/record.jsonl", expected).unwrap();
    let mut reader = external.open(true, held.fingerprint()).ok().unwrap();

    let mut replacement = OpenFile::new(b"replacement\n");
    replacement.inode = 3;
    let received = held.bytes.clone();
    reader.absorb(&received).unwrap();

    assert_eq!(received, b"original\n");
    assert_ne!(replacement.fingerprint(), held.fingerprint());
    reader.finish(&held.fingerprint()).unwrap();
    assert!(reader.is_finished());
}

#[test]
fn in_place_mutation_fails_finish_validation() {
    let mut file = OpenFile::new(b"original\n");
    let expected = CanonicalRevision::from_bytes(b"original\n");
    let external = CurrentExternalRevision::new("/root", "sessions/record.jsonl", expected).unwrap();
    let mut reader = external.open(true, file.fingerprint()).ok().unwrap();

    file.overwrite(b"changed\n");

    assert!(matches!(
        reader.finish(&file.fingerprint()),
        Err(PayloadError::StaleRevision { .. })
    ));
}

#[test]
fn wrong_length_is_rejected_before_a_consumer_can_read() {
    let file = OpenFile::new(b"actual\n");
    let expected = CanonicalRevision::from_bytes(b"different bytes\n");
    let external = CurrentExternalRevision::new("/root", "record.jsonl", expected).unwrap();

    assert!(matches!(
        external.open(true, file.fingerprint()),
        Err(PayloadError::StaleRevision { .. })
    ));
    assert!(matches!(
        external.open(false, file.fingerprint()),
        Err(PayloadError::UnexpectedFileType)
    ));
}

#[test]
fn materialization_publishes_a_verified_lease_scoped_copy() {
    let file = OpenFile::new(b"verified source bytes\n");
    let expected = CanonicalRevision::from_bytes(b"verified source bytes\n");
    let external =
        CurrentExternalRevision::new("/source", "sessions/record.jsonl", expected).unwrap();
    let mut cache =
        MaterializationCache::new("/cache", true, MaterializationLimits::new(1024, 1, 1024).unwrap())
            .unwrap();

    let (mut lease, copy) = materialize(&mut cache, &external, &file).unwrap();
    assert_ne!(lease.path(), "/source/sessions/record.jsonl");
    assert!(lease.path().starts_with("/cache/lease-"));
    assert!(lease.path().ends_with(".payload"));
    assert_eq!(copy, b"verified source bytes\n");
    assert_eq!(lease.expected(), expected);
    lease.release(&mut cache, &Removal::Removed).unwrap();
}

#[test]
fn materialization_enforces_active_capacity_and_releases_it_after_drop() {
    let file = OpenFile::new(b"small\n");
    let expected = CanonicalRevision::from_bytes(b"small\n");
    let external = CurrentExternalRevision::new("/source", "record.jsonl", expected).unwrap();
    let mut cache =
        MaterializationCache::new("/cache", true, MaterializationLimits::new(64, 1, 64).unwrap())
            .unwrap();

    let (mut lease, _) = materialize(&mut cache, &external, &file).unwrap();
    assert!(matches!(
        materialize(&mut cache, &external, &file),
        Err(PayloadError::CacheCapacityExceeded)
    ));
    assert!(matches!(
        lease.release(&mut cache, &Removal::Failed("busy".to_owned())),
        Err(PayloadError::CacheIo(_))
    ));
    assert!(materialize(&mut cache, &external, &file).is_err());
    lease.release(&mut cache, &Removal::NotFound).unwrap();
    lease.release(&mut cache, &Removal::Failed("again".to_owned())).unwrap();

    let (mut lease, _) = materialize(&mut cache, &external, &file).unwrap();
    lease.release(&mut cache, &Removal::Removed).unwrap();
}

#[test]
fn failed_materialization_returns_its_capacity_reservation() {
    let mut file = OpenFile::new(b"original\n");
    let expected = CanonicalRevision::from_bytes(b"original\n");
    let external = CurrentExternalRevision::new("/source", "record.jsonl", expected).unwrap();
    let mut cache =
        MaterializationCache::new("/cache", true, MaterializationLimits::new(64, 1, 64).unwrap())
            .unwrap();

    file.overwrite(b"changed\n");
    assert!(matches!(
        materialize(&mut cache, &external, &file),
        Err(PayloadError::StaleRevision { .. })
    ));

    file.overwrite(b"original\n");
    let (mut lease, _) = materialize(&mut cache, &external, &file).unwrap();
    lease.release(&mut cache, &Removal::Removed).unwrap();
}

#[test]
fn cache_startup_reclaims_only_recognized_orphaned_materializations() {
    let orphan = format!(
        "lease-{}-{}.payload",
        "a".repeat(64),
        Uuid::new_v4().to_text()
    );
    let partial = format!(
        ".lease-{}-{}.partial",
        "b".repeat(64),
        Uuid::new_v4().to_text()
    );

    assert!(is_owned_materialization_name(&orphan));
    assert!(is_owned_materialization_name(&partial));
    assert!(!is_owned_materialization_name("operator-note.txt"));
    assert!(!is_owned_materialization_name(&orphan[1..]));
    assert!(!is_owned_materialization_name(&partial.replace('b', "x")));
}

#[test]
fn a_cache_recognizes_the_files_it_names() {
    let cache =
        MaterializationCache::new("/cache", true, MaterializationLimits::new(64, 1, 64).unwrap())
            .unwrap();
    let revision = CanonicalRevision::from_bytes(b"bytes");
    let nonce = Uuid::new_v4();
    let payload = cache.payload_path(&revision, nonce);
    let partial = cache.partial_path(&revision, nonce);
    assert_eq!(
        payload,
        format!("/cache/lease-{}-{}.payload", revision.digest_hex(), nonce.to_text())
    );
    assert!(is_owned_materialization_name(payload.strip_prefix("/cache/").unwrap()));
    assert!(is_owned_materialization_name(partial.strip_prefix("/cache/").unwrap()));
}

#[test]
fn payload_configuration_is_checked() {
    let revision = CanonicalRevision::from_bytes(b"bytes");
    assert!(matches!(
        CurrentExternalRevision::new("relative", "a.jsonl", revision),
        Err(PayloadError::InvalidConfiguration(_))
    ));
    assert!(CurrentExternalRevision::new("/root", "../a.jsonl", revision).is_err());
    assert!(matches!(
        MaterializationLimits::new(0, 1, 1),
        Err(PayloadError::InvalidConfiguration(_))
    ));
    assert!(matches!(
        MaterializationCache::new("/cache", false, MaterializationLimits::new(1, 1, 1).unwrap()),
        Err(PayloadError::InvalidConfiguration(_))
    ));
    let mut cache =
        MaterializationCache::new("/cache", true, MaterializationLimits::new(8, 2, 8).unwrap())
            .unwrap();
    assert_eq!(
        cache.reserve(9),
        Err(PayloadError::MaterializationLimit { requested_bytes: 9, limit_bytes: 8 })
    );
    cache.reserve(8).unwrap();
    assert_eq!(cache.reserve(1), Err(PayloadError::CacheCapacityExceeded));
    cache.release_reservation(8);
    cache.reserve(1).unwrap();
}
