use agent_bookkeeper::{
    CanonicalRevision, DomainError, LogicalLocation, ProducerId, RecordIdentity,
};

#[test]
fn canonical_revision_is_independent_of_reader_chunking() {
    let bytes = b"one\ntwo\nthree\n";
    let from_bytes = CanonicalRevision::from_bytes(bytes);
    let from_reader = CanonicalRevision::from_reader(&vec![
        bytes[..5].to_vec(),
        bytes[5..].to_vec(),
    ])
    .unwrap();

    assert_eq!(from_bytes, from_reader);
    assert_eq!(from_bytes.byte_length(), bytes.len() as u64);
    assert_eq!(from_bytes.digest_hex().len(), 64);
}

#[test]
fn identity_is_path_independent_and_location_is_confined() {
    let identity = RecordIdentity::new(
        ProducerId::new(),
        "codex",
        "session-1",
        "transcript",
        "primary",
    )
    .unwrap();
    assert_eq!(identity.session_id(), "session-1");

    assert!(LogicalLocation::new("active", "sessions/session-1.jsonl").is_ok());
    assert!(matches!(
        LogicalLocation::new("active", "../outside.jsonl"),
        Err(DomainError::InvalidLocation(_))
    ));
}
