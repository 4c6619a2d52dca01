use agent_bookkeeper::catalog::{as_i64, as_u64, optional_as_i64, ConstraintFault};
use agent_bookkeeper::clock::{now_ms, stored_millis, unix_time_parts};
use agent_bookkeeper::domain::{required_identifier, RevisionBuilder};
use agent_bookkeeper::ident::Uuid;
use agent_bookkeeper::json::{
    parse_bytes, parse_text, write_plain_object, Json, JsonObject, PlainMember, PlainValue,
};
use agent_bookkeeper::paths::{
    final_component, has_jsonl_extension, is_absolute, join_path, normal_components,
    parent_directory,
};
use agent_bookkeeper::receipts::{event_idempotency_key, same_bytes};
use agent_bookkeeper::text::{
    comes_before, contains_text, decimal_text, hex_encode, is_blank, is_trimmed, join_text,
    line_bytes, signed_decimal_text, trimmed, without_end,
};
use agent_bookkeeper::{
    CanonicalRevision, Catalog, CatalogError, DeliveryError, DeliveryOutcome, DeliveryState,
    DomainError, EventKind, LogicalLocation, ProducerId, RecordIdentity, RecordState,
    RetryPolicy, SourceFingerprint, SourceRegistration, SubscriptionConfig, SubscriptionMode,
    TombstoneGrace,
};

#[test]
fn revisions_are_blake3_digests() {
    let empty = CanonicalRevision::from_bytes(b"");
    assert_eq!(
        empty.digest_hex(),
        "af1349b9f5f9a1a6a0404dea36dcc9499bcb25c9adc112b7cc9a93cae41f3262"
    );
    assert_eq!(empty.byte_length(), 0);
    assert_eq!(CanonicalRevision::algorithm(), "blake3-256");
    let mut builder = RevisionBuilder::new();
    builder.absorb(b"abc").unwrap();
    builder.absorb(b"").unwrap();
    builder.absorb(b"def").unwrap();
    assert_eq!(builder.finish(), CanonicalRevision::from_bytes(b"abcdef"));
    let reads = vec![b"abc".to_vec(), Vec::new(), b"behind the end".to_vec()];
    assert_eq!(
        CanonicalRevision::from_reader(&reads).unwrap(),
        CanonicalRevision::from_bytes(b"abc")
    );
    let parts = CanonicalRevision::from_parts(3, [7u8; 32]);
    assert_eq!(parts.digest(), [7u8; 32]);
    assert!(!parts.same(&empty));
}

#[test]
fn identifiers_are_read_and_written() {
    let id = Uuid::from_u128(0x0123_4567_89ab_cdef_0123_4567_89ab_cdef);
    assert_eq!(id.to_text(), "01234567-89ab-cdef-0123-456789abcdef");
    assert_eq!(Uuid::parse_str("01234567-89ab-cdef-0123-456789abcdef"), Ok(id));
    assert_eq!(Uuid::parse_str("0123456789ABCDEF0123456789abcdef"), Ok(id));
    assert_eq!(Uuid::parse_str("{01234567-89ab-cdef-0123-456789abcdef}"), Ok(id));
    assert_eq!(Uuid::parse_str("urn:uuid:01234567-89ab-cdef-0123-456789abcdef"), Ok(id));
    assert!(Uuid::parse_str("01234567-89ab-cdef-0123-456789abcdeg").is_err());
    assert!(Uuid::parse_str("").is_err());
    assert_eq!(Uuid::from_slice(&id.to_bytes()), Some(id));
    assert_eq!(id.to_bytes()[0], 1);
    assert_eq!(Uuid::from_slice(&[0u8; 15]), None);
    assert_eq!(Uuid::nil().as_u128(), 0);
    let random = Uuid::new_v4();
    assert_eq!((random.as_u128() >> 76) & 0xf, 4);
    assert_ne!(random, Uuid::new_v4());
}

#[test]
fn texts_are_compared_and_cut() {
    assert_eq!(trimmed(" \u{3000}a b\n"), "a b");
    assert!(is_trimmed("a b"));
    assert!(!is_trimmed("a\t"));
    assert!(is_blank(" \n"));
    assert!(contains_text("abcabd", "abd"));
    assert!(!contains_text("ab", "abd"));
    assert_eq!(without_end("a///", '/'), "a");
    assert_eq!(decimal_text(u64::MAX), "18446744073709551615");
    assert_eq!(signed_decimal_text(i64::MIN), "-9223372036854775808");
    assert_eq!(signed_decimal_text(0), "0");
    assert_eq!(hex_encode(&[0, 255, 16]), "00ff10");
    assert_eq!(join_text(&vec!["a".to_owned(), "b".to_owned()], ", "), "a, b");
    assert!(comes_before("a", "ab") && comes_before("ab", "b") && !comes_before("b", "b"));
    assert_eq!(line_bytes("é"), vec![0xc3, 0xa9, 10]);
    assert!(same_bytes(b"a", b"a") && !same_bytes(b"a", b"b") && !same_bytes(b"a", b"ab"));
}

#[test]
fn paths_are_taken_apart() {
    assert!(is_absolute("/a") && !is_absolute("a") && !is_absolute(""));
    assert_eq!(join_path("/a", "b"), "/a/b");
    assert_eq!(join_path("/a/", "b"), "/a/b");
    assert_eq!(join_path("/a", "/b"), "/b");
    assert_eq!(final_component("/a/b.jsonl/./").as_deref(), Some("b.jsonl"));
    assert_eq!(final_component("/a/.."), None);
    assert_eq!(final_component("/"), None);
    assert!(has_jsonl_extension("/a/b.jsonl"));
    assert!(!has_jsonl_extension("/a/.jsonl"));
    assert_eq!(
        normal_components("a//b/./c"),
        Some(vec!["a".to_owned(), "b".to_owned(), "c".to_owned()])
    );
    assert_eq!(normal_components("a/../b"), None);
    assert_eq!(parent_directory("/a/./b//").as_deref(), Some("/a"));
    assert_eq!(parent_directory("/a").as_deref(), Some("/"));
    assert_eq!(parent_directory("//"), None);
}

#[test]
fn json_is_read_and_written() {
    let value = parse_text("{\"b\":[1,-2,1.5,null,true,\"x\\n\"],\"a\":{},\"b2\":1,\"b2\":2}").unwrap();
    assert_eq!(
        value.to_text(),
        "{\"a\":{},\"b\":[1,-2,1.5,null,true,\"x\\n\"],\"b2\":2}"
    );
    assert_eq!(value.get("b2").unwrap().as_u64(), Some(2));
    assert!(value.get("missing").is_none());
    assert!(value.same(&value.copy()));
    assert!(!value.same(&Json::Null));
    assert!(parse_text("{").is_err());
    assert!(parse_bytes(b"\xff").is_err());
    assert!(parse_bytes(b" [ ] \n").unwrap().same(&Json::Array(Vec::new())));
    assert_eq!(Json::Unsigned(u64::MAX).as_i64(), None);
    assert_eq!(Json::Negative(-1).as_u64(), None);
    assert_eq!(Json::Negative(-1).as_i64(), Some(-1));
    assert_eq!(Json::Bool(true).as_bool(), Some(true));
    let object = JsonObject::new()
        .with_text("name", "first")
        .with_number("name", 2)
        .with("gone", Json::Null)
        .without("gone")
        .finish();
    assert_eq!(object.to_text(), "{\"name\":2}");
    assert!(JsonObject::of(&Json::Null).is_none());
    assert!(JsonObject::of(&object).unwrap().finish().same(&object));
}

#[test]
fn flat_objects_read_back() {
    let members = vec![
        PlainMember { name: "a".to_owned(), value: PlainValue::Unsigned(u64::MAX) },
        PlainMember { name: "b".to_owned(), value: PlainValue::Signed(i64::MIN) },
        PlainMember { name: "c".to_owned(), value: PlainValue::Text("plain".to_owned()) },
        PlainMember { name: "d".to_owned(), value: PlainValue::Signed(5) },
    ];
    let bytes = write_plain_object(&members);
    assert_eq!(
        bytes,
        b"{\"a\":18446744073709551615,\"b\":-9223372036854775808,\"c\":\"plain\",\"d\":5}\n"
    );
    let value = parse_bytes(&bytes).unwrap();
    assert_eq!(value.get("a").unwrap().as_u64(), Some(u64::MAX));
    assert_eq!(value.get("b").unwrap().as_i64(), Some(i64::MIN));
    assert_eq!(value.get("c").unwrap().as_str(), Some("plain"));
    assert_eq!(value.get("d").unwrap().as_u64(), Some(5));
    assert_eq!(write_plain_object(&Vec::new()), b"{}\n");
}

#[test]
fn stored_names_are_read_back() {
    for state in [RecordState::Active, RecordState::Tombstoned] {
        assert_eq!(RecordState::from_db(state.as_db()), Ok(state));
    }
    for kind in [
        EventKind::RevisionCommitted,
        EventKind::LocationChanged,
        EventKind::RecordTombstoned,
        EventKind::RecordRestored,
    ] {
        assert_eq!(EventKind::from_db(kind.as_db()), Ok(kind));
    }
    for mode in [SubscriptionMode::ReplayEvents, SubscriptionMode::RebuildCurrent] {
        assert_eq!(SubscriptionMode::from_db(mode.as_db()), Ok(mode));
    }
    for state in [
        DeliveryState::Queued,
        DeliveryState::Leased,
        DeliveryState::Blocked,
        DeliveryState::Acknowledged,
        DeliveryState::Superseded,
        DeliveryState::IgnoredByPolicy,
        DeliveryState::DeadLettered,
    ] {
        assert_eq!(DeliveryState::from_db(state.as_db()), Ok(state));
    }
    let error = RecordState::from_db("gone").unwrap_err();
    assert_eq!(error, DomainError::CorruptState("gone".to_owned()));
    let error = DeliveryState::from_db("a\"b").unwrap_err();
    assert_eq!(
        error,
        DeliveryError::Corrupt("unknown delivery state \"a\\\"b\"".to_owned())
    );
    assert!(DeliveryOutcome::Superseded.advances_record_order());
    assert!(!DeliveryOutcome::DeadLettered.advances_record_order());
}

#[test]
fn refused_values_name_their_fault() {
    assert_eq!(
        required_identifier("session_id", " a").unwrap_err(),
        DomainError::InvalidIdentifier { field: "session_id" }
    );
    assert!(RecordIdentity::new(ProducerId::new(), "codex", "a\0", "k", "p").is_err());
    assert!(LogicalLocation::new("active", "").is_err());
    assert!(LogicalLocation::new("active", "/abs").is_err());
    assert_eq!(as_i64(u64::MAX, "count").unwrap_err().message(),
        "catalog data is corrupt: count exceeds SQLite INTEGER range");
    assert_eq!(as_u64(-1, "count").unwrap_err().message(),
        "catalog data is corrupt: negative count");
    assert_eq!(optional_as_i64(None, "count"), Ok(None));
    assert_eq!(optional_as_i64(Some(7), "count"), Ok(Some(7)));
    assert!(matches!(
        SourceRegistration::new("source", ProducerId::new(), "schema", 0),
        Err(CatalogError::InvalidSourceRegistration(_))
    ));
    assert!(matches!(
        TombstoneGrace::new(0, 1),
        Err(CatalogError::InvalidTombstoneGrace(_))
    ));
    assert!(matches!(
        RetryPolicy::new(1, 2, 1),
        Err(DeliveryError::InvalidSubscription(_))
    ));
    assert!(matches!(
        SubscriptionConfig::new("consumer", 0, true, true),
        Err(DeliveryError::InvalidSubscription(_))
    ));
    assert_eq!(
        CatalogError::Constraint(ConstraintFault::DuplicateIdentifier).message(),
        "catalog constraint failed: identifier is already in use"
    );
    assert_eq!(
        CatalogError::NewerSchema { found: 9, supported: 7 }.message(),
        "catalog schema version 9 is newer than this binary supports (7)"
    );
}

#[test]
fn times_before_and_after_the_epoch() {
    assert!(now_ms().unwrap() > 1_600_000_000_000);
    assert_eq!(stored_millis(Some(5)), Ok(5));
    assert_eq!(stored_millis(None), Err(CatalogError::ClockBeforeEpoch));
    assert!(matches!(stored_millis(Some(u128::MAX)), Err(CatalogError::Corrupt(_))));
    assert_eq!(unix_time_parts(false, 5, 7), (5, 7));
    assert_eq!(unix_time_parts(true, 5, 0), (-5, 0));
    assert_eq!(unix_time_parts(true, 5, 7), (-6, 999_999_993));
    assert_eq!(unix_time_parts(false, u64::MAX, 7), (i64::MAX, 7));
    assert_eq!(SourceFingerprint::from_metadata(false, 1, (1, 0), None, None), None);
}

#[test]
fn an_event_has_one_key_for_each_subscription() {
    let mut catalog = Catalog::open_in_memory().unwrap();
    let subscription = catalog
        .create_subscription(
            SubscriptionConfig::new("consumer", 1, true, true).unwrap(),
            SubscriptionMode::ReplayEvents,
            0,
        )
        .unwrap();
    let identity =
        RecordIdentity::new(ProducerId::new(), "codex", "s", "transcript", "primary").unwrap();
    let location = LogicalLocation::new("active", "a.jsonl").unwrap();
    catalog
        .observe_present_at(&identity, &location, CanonicalRevision::from_bytes(b"x"), 1)
        .unwrap();
    let lease = catalog.lease_next(subscription.id, 2, 10).unwrap().unwrap();
    let key = event_idempotency_key(&lease);
    assert!(key.contains(&lease.event_id.as_uuid().to_text()));
    assert!(key.contains(&subscription.id.as_uuid().to_text()));
}
