//! Backups of a catalog: where they may stand, the manifest beside them, and whether the two
//! belong together.
use vstd::prelude::*;
use vstd::utf8::*;

use crate::catalog::{as_u64, CatalogError, CatalogErrorView, SCHEMA_VERSION};
use crate::delivery::{DeliveryState, SubscriptionId};
use crate::domain::{EventView, IdentityView};
use crate::ident;
use crate::ident::Uuid;
use crate::json;
use crate::json::{parse_bytes, write_plain_object, Json, JsonView, PlainMember, PlainValue};
use crate::leases;
use crate::ledger::{Catalog, LedgerView};
use crate::paths;
use crate::paths::{final_component, is_absolute, join_path, parent_directory};
use crate::receipts::same_bytes;
use crate::records;
use crate::rows;
use crate::rows::{CatalogColumns, EventColumns};
use crate::text;
use crate::text::{concat2, decimal_text, hex_encode};

verus! {

/// What a backup's manifest says of it. The digest is that of the deployment's source
/// configuration, which is no part of the catalog.
#[derive(Debug, Eq, PartialEq)]
pub struct BackupMetadata {
    pub format_version: u32,
    pub created_at_ms: i64,
    pub schema_version: i64,
    pub latest_event_sequence: u64,
    pub source_configuration_digest: [u8; 32],
}

/// What a backup's manifest says, the digest as its bytes.
#[verifier::ext_equal]
pub struct MetadataView {
    pub format_version: u32,
    pub created_at_ms: i64,
    pub schema_version: i64,
    pub latest_event_sequence: u64,
    pub source_configuration_digest: Seq<u8>,
}

impl View for BackupMetadata {
    type V = MetadataView;

    open spec fn view(&self) -> MetadataView {
        MetadataView {
            format_version: self.format_version,
            created_at_ms: self.created_at_ms,
            schema_version: self.schema_version,
            latest_event_sequence: self.latest_event_sequence,
            source_configuration_digest: self.source_configuration_digest@,
        }
    }
}

/// A backup with its manifest.
#[derive(Debug, Eq, PartialEq)]
pub struct BackupArtifact {
    pub catalog_path: String,
    pub manifest_path: String,
    pub metadata: BackupMetadata,
}

/// A backup with its manifest, its texts as character sequences.
#[verifier::ext_equal]
pub struct ArtifactView {
    pub catalog_path: Seq<char>,
    pub manifest_path: Seq<char>,
    pub metadata: MetadataView,
}

impl View for BackupArtifact {
    type V = ArtifactView;

    open spec fn view(&self) -> ArtifactView {
        ArtifactView {
            catalog_path: self.catalog_path@,
            manifest_path: self.manifest_path@,
            metadata: self.metadata@,
        }
    }
}

/// An artifact, or the error, with its texts as character sequences.
pub open spec fn artifact_outcome(result: Result<BackupArtifact, CatalogError>) -> Result<
    ArtifactView,
    CatalogErrorView,
> {
    match result {
        Ok(artifact) => Ok(artifact@),
        Err(error) => Err(error@),
    }
}

/// Why a path cannot hold a backup. Whether its parent is a real directory is for the caller to
/// see.
pub open spec fn destination_fault(path: Seq<char>, parent_is_directory: bool) -> Option<Seq<char>> {
    if !paths::absolute(path) {
        Some("backup destination must be an absolute path"@)
    } else if paths::parent(path) is None {
        Some("backup destination must have a parent directory"@)
    } else if paths::file_name(path) is None {
        Some("backup destination filename must be UTF-8"@)
    } else if !parent_is_directory {
        Some("backup destination parent must be a real directory"@)
    } else {
        None
    }
}

/// The path beside `path` with `name` for its final component.
pub open spec fn beside(path: Seq<char>, name: Seq<char>) -> Seq<char> {
    paths::joined(paths::parent(path)->Some_0, name)
}

/// Where the manifest of a backup stands.
pub open spec fn manifest_place(path: Seq<char>) -> Seq<char> {
    beside(path, paths::file_name(path)->Some_0 + ".metadata.json"@)
}

/// Where a backup is written before it takes its place.
pub open spec fn temporary_place(path: Seq<char>, label: Seq<char>, nonce: Uuid) -> Seq<char> {
    beside(
        path,
        "."@ + paths::file_name(path)->Some_0 + "."@ + label + "-"@ + ident::uuid_text(nonce)
            + ".partial"@,
    )
}

/// Refuses a path that cannot hold a backup.
pub fn validate_backup_destination(path: &str, parent_is_directory: bool) -> (result: Result<
    (),
    CatalogError,
>)
    ensures
        match result {
            Ok(_) => destination_fault(path@, parent_is_directory) is None,
            Err(error) => destination_fault(path@, parent_is_directory) is Some && error@
                == CatalogErrorView::InvalidBackupDestination(
                destination_fault(path@, parent_is_directory)->Some_0,
            ),
        },
{
    if !is_absolute(path) {
        return Err(
            CatalogError::InvalidBackupDestination(
                "backup destination must be an absolute path".to_owned(),
            ),
        );
    }
    if parent_directory(path).is_none() {
        return Err(
            CatalogError::InvalidBackupDestination(
                "backup destination must have a parent directory".to_owned(),
            ),
        );
    }
    if final_component(path).is_none() {
        return Err(
            CatalogError::InvalidBackupDestination(
                "backup destination filename must be UTF-8".to_owned(),
            ),
        );
    }
    if !parent_is_directory {
        return Err(
            CatalogError::InvalidBackupDestination(
                "backup destination parent must be a real directory".to_owned(),
            ),
        );
    }
    Ok(())
}

/// Where the manifest of a backup stands.
pub fn backup_manifest_path(catalog_path: &str) -> (result: Result<String, CatalogError>)
    ensures
        match result {
            Ok(place) => paths::parent(catalog_path@) is Some && paths::file_name(
                catalog_path@,
            ) is Some && place@ == manifest_place(catalog_path@),
            Err(error) => if paths::parent(catalog_path@) is None {
                error@ == CatalogErrorView::InvalidBackupDestination(
                    "backup artifact must have a parent directory"@,
                )
            } else {
                paths::file_name(catalog_path@) is None && error@
                    == CatalogErrorView::InvalidBackupDestination(
                    "backup artifact filename must be UTF-8"@,
                )
            },
        },
{
    let parent = match parent_directory(catalog_path) {
        Some(parent) => parent,
        None => {
            return Err(
                CatalogError::InvalidBackupDestination(
                    "backup artifact must have a parent directory".to_owned(),
                ),
            );
        },
    };
    match final_component(catalog_path) {
        Some(name) => Ok(
            join_path(parent.as_str(), concat2(name.as_str(), ".metadata.json").as_str()),
        ),
        None => Err(
            CatalogError::InvalidBackupDestination(
                "backup artifact filename must be UTF-8".to_owned(),
            ),
        ),
    }
}

/// Where a backup is written before it takes its place, for a given random part.
pub fn temporary_backup_path_with(destination: &str, label: &str, nonce: Uuid) -> (result: Result<
    String,
    CatalogError,
>)
    ensures
        match result {
            Ok(place) => paths::parent(destination@) is Some && paths::file_name(
                destination@,
            ) is Some && place@ == temporary_place(destination@, label@, nonce),
            Err(error) => if paths::parent(destination@) is None {
                error@ == CatalogErrorView::InvalidBackupDestination(
                    "backup artifact must have a parent directory"@,
                )
            } else {
                paths::file_name(destination@) is None && error@
                    == CatalogErrorView::InvalidBackupDestination(
                    "backup artifact filename must be UTF-8"@,
                )
            },
        },
{
    let parent = match parent_directory(destination) {
        Some(parent) => parent,
        None => {
            return Err(
                CatalogError::InvalidBackupDestination(
                    "backup artifact must have a parent directory".to_owned(),
                ),
            );
        },
    };
    match final_component(destination) {
        Some(name) => {
            let mut partial = concat2(".", name.as_str());
            partial.append(".");
            partial.append(label);
            partial.append("-");
            partial.append(nonce.to_text().as_str());
            partial.append(".partial");
            Ok(join_path(parent.as_str(), partial.as_str()))
        },
        None => Err(
            CatalogError::InvalidBackupDestination(
                "backup artifact filename must be UTF-8".to_owned(),
            ),
        ),
    }
}

/// Where a backup is written before it takes its place, with a fresh random part.
pub fn temporary_backup_path(destination: &str, label: &str) -> (result: Result<
    String,
    CatalogError,
>)
    ensures
        match result {
            Ok(place) => exists|nonce: Uuid|
                ident::is_random_form(nonce.value) && place@ == #[trigger] temporary_place(
                    destination@,
                    label@,
                    nonce,
                ),
            Err(error) => if paths::parent(destination@) is None {
                error@ == CatalogErrorView::InvalidBackupDestination(
                    "backup artifact must have a parent directory"@,
                )
            } else {
                paths::file_name(destination@) is None && error@
                    == CatalogErrorView::InvalidBackupDestination(
                    "backup artifact filename must be UTF-8"@,
                )
            },
        },
        result is Ok <==> paths::parent(destination@) is Some && paths::file_name(
            destination@,
        ) is Some,
{
    let nonce = Uuid::new_v4();
    temporary_backup_path_with(destination, label, nonce)
}

/// The members of a manifest, in order.
pub open spec fn manifest_members(m: MetadataView) -> Seq<(Seq<char>, JsonView)> {
    seq![
        ("format_version"@, JsonView::Unsigned(m.format_version as u64)),
        ("created_at_ms"@, signed_number(m.created_at_ms)),
        ("schema_version"@, signed_number(m.schema_version)),
        ("latest_event_sequence"@, JsonView::Unsigned(m.latest_event_sequence)),
        (
            "source_configuration_digest"@,
            JsonView::Text(text::hex(m.source_configuration_digest)),
        ),
    ]
}

/// A signed integer as a JSON value.
pub open spec fn signed_number(value: i64) -> JsonView {
    if value < 0 {
        JsonView::Negative(value)
    } else {
        JsonView::Unsigned(value as u64)
    }
}

/// The bytes of a manifest.
pub open spec fn manifest_bytes(m: MetadataView) -> Seq<u8> {
    encode_utf8(json::plain_object_text(manifest_members(m))).push(10u8)
}

/// The value of the ASCII code of a hexadecimal digit in either case.
pub open spec fn digit_value(byte: u8) -> Option<u8> {
    if 0x30u8 <= byte <= 0x39u8 {
        Some((byte - 0x30u8) as u8)
    } else if 0x61u8 <= byte <= 0x66u8 {
        Some((byte - 0x61u8 + 10) as u8)
    } else if 0x41u8 <= byte <= 0x46u8 {
        Some((byte - 0x41u8 + 10) as u8)
    } else {
        None
    }
}

/// The byte that two ASCII codes write: two hexadecimal digits, or a plus sign and one.
pub open spec fn pair_value(high: u8, low: u8) -> Option<u8> {
    match (digit_value(high), digit_value(low)) {
        (Some(high), Some(low)) => Some((16 * high + low) as u8),
        (None, Some(low)) => if high == 0x2bu8 {
            Some(low)
        } else {
            None
        },
        _ => None,
    }
}

/// Whether a character reaches over the position `at`.
pub open spec fn cuts_character(bytes: Seq<u8>, at: int) -> bool {
    at < bytes.len() && 0x80 <= bytes[at] < 0xc0
}

/// Whether the pair at `i` ends with a character and writes a byte.
pub open spec fn good_pair(bytes: Seq<u8>, i: int) -> bool {
    !cuts_character(bytes, 2 * i + 2) && pair_value(bytes[2 * i], bytes[2 * i + 1]) is Some
}

/// Whether a digest text of the right length has, behind pairs that each write a byte, one that
/// ends inside a character. Such a text cannot be cut into pairs.
pub open spec fn uncuttable(digest: Seq<char>) -> bool {
    let bytes = encode_utf8(digest);
    bytes.len() == 64 && exists|i: int|
        0 <= i < 32 && #[trigger] cuts_character(bytes, 2 * i + 2) && (forall|j: int|
            0 <= j < i ==> #[trigger] good_pair(bytes, j))
}

/// The digest that a text writes.
pub open spec fn decoded(digest: Seq<char>) -> Result<Seq<u8>, CatalogErrorView> {
    let bytes = encode_utf8(digest);
    if bytes.len() != 64 {
        Err(CatalogErrorView::BackupManifestInvalid("manifest digest has the wrong length"@))
    } else if forall|i: int| 0 <= i < 32 ==> #[trigger] good_pair(bytes, i) {
        Ok(Seq::new(32, |i: int| pair_value(bytes[2 * i], bytes[2 * i + 1])->Some_0))
    } else {
        Err(CatalogErrorView::BackupManifestInvalid("manifest digest is not hexadecimal"@))
    }
}

/// The digest text of a manifest that has all members and the right version.
pub open spec fn digest_text(value: JsonView) -> Option<Seq<char>> {
    if manifest_fault(value) is None {
        json::as_text(json::get(value, "source_configuration_digest"@))
    } else {
        None
    }
}

/// What a manifest lacks before its digest is read.
pub open spec fn manifest_fault(value: JsonView) -> Option<Seq<char>> {
    if !(value is Object) {
        Some("manifest must be a JSON object"@)
    } else if json::as_unsigned(json::get(value, "format_version"@)) is None {
        Some("manifest format_version is missing"@)
    } else if json::as_integer(json::get(value, "created_at_ms"@)) is None {
        Some("manifest created_at_ms is missing"@)
    } else if json::as_integer(json::get(value, "schema_version"@)) is None {
        Some("manifest schema_version is missing"@)
    } else if json::as_unsigned(json::get(value, "latest_event_sequence"@)) is None {
        Some("manifest latest_event_sequence is missing"@)
    } else if json::as_text(json::get(value, "source_configuration_digest"@)) is None {
        Some("manifest source_configuration_digest is missing"@)
    } else if json::as_unsigned(json::get(value, "format_version"@)) != Some(1u64) {
        Some(
            "unsupported backup manifest version "@ + text::decimal(
                json::as_unsigned(json::get(value, "format_version"@))->Some_0 as nat,
            ),
        )
    } else {
        None
    }
}

/// What a manifest says.
pub open spec fn manifest_of(value: JsonView) -> Result<MetadataView, CatalogErrorView> {
    match manifest_fault(value) {
        Some(reason) => Err(CatalogErrorView::BackupManifestInvalid(reason)),
        None => match decoded(digest_text(value)->Some_0) {
            Err(error) => Err(error),
            Ok(digest) => Ok(
                MetadataView {
                    format_version: 1,
                    created_at_ms: json::as_integer(json::get(value, "created_at_ms"@))->Some_0,
                    schema_version: json::as_integer(json::get(value, "schema_version"@))->Some_0,
                    latest_event_sequence: json::as_unsigned(
                        json::get(value, "latest_event_sequence"@),
                    )->Some_0,
                    source_configuration_digest: digest,
                },
            ),
        },
    }
}

/// What the bytes of a manifest say. Nothing where its digest text cannot be cut into pairs.
pub open spec fn manifest_reading(read: Result<JsonView, Seq<char>>) -> Option<
    Result<MetadataView, CatalogErrorView>,
> {
    match read {
        Err(error) => Some(Err(CatalogErrorView::BackupManifestInvalid(error))),
        Ok(value) => if digest_text(value) is Some && uncuttable(digest_text(value)->Some_0) {
            None
        } else {
            Some(manifest_of(value))
        },
    }
}

/// Metadata, or the error, with its texts as sequences.
pub open spec fn metadata_outcome(result: Result<BackupMetadata, CatalogError>) -> Result<
    MetadataView,
    CatalogErrorView,
> {
    match result {
        Ok(metadata) => Ok(metadata@),
        Err(error) => Err(error@),
    }
}

/// The bytes of a manifest.
pub fn write_backup_manifest(metadata: &BackupMetadata) -> (result: Vec<u8>)
    ensures
        result@ == manifest_bytes(metadata@),
{
    let mut members: Vec<PlainMember> = Vec::new();
    members.push(
        PlainMember {
            name: "format_version".to_owned(),
            value: PlainValue::Unsigned(metadata.format_version as u64),
        },
    );
    members.push(
        PlainMember {
            name: "created_at_ms".to_owned(),
            value: PlainValue::Signed(metadata.created_at_ms),
        },
    );
    members.push(
        PlainMember {
            name: "schema_version".to_owned(),
            value: PlainValue::Signed(metadata.schema_version),
        },
    );
    members.push(
        PlainMember {
            name: "latest_event_sequence".to_owned(),
            value: PlainValue::Unsigned(metadata.latest_event_sequence),
        },
    );
    members.push(
        PlainMember {
            name: "source_configuration_digest".to_owned(),
            value: PlainValue::Text(
                hex_encode(vstd::array::array_as_slice(&metadata.source_configuration_digest)),
            ),
        },
    );
    assert(text::views(members@) =~= manifest_members(metadata@));
    write_plain_object(&members)
}

fn digit_of(byte: u8) -> (result: Option<u8>)
    ensures
        result == digit_value(byte),
        result matches Some(value) ==> value < 16,
{
    if 0x30 <= byte && byte <= 0x39 {
        Some(byte - 0x30)
    } else if 0x61 <= byte && byte <= 0x66 {
        Some(byte - 0x61 + 10)
    } else if 0x41 <= byte && byte <= 0x46 {
        Some(byte - 0x41 + 10)
    } else {
        None
    }
}

fn pair_of(high: u8, low: u8) -> (result: Option<u8>)
    ensures
        result == pair_value(high, low),
{
    match (digit_of(high), digit_of(low)) {
        (Some(high), Some(low)) => Some(16 * high + low),
        (None, Some(low)) => if high == 0x2b {
            Some(low)
        } else {
            None
        },
        _ => None,
    }
}

/// Whether a digest text cannot be cut into pairs.
pub fn is_uncuttable(digest: &str) -> (result: bool)
    ensures
        result == uncuttable(digest@),
{
    let bytes = digest.as_bytes();
    if bytes.len() != 64 {
        return false;
    }
    let mut i: usize = 0;
    while i < 32
        invariant
            0 <= i <= 32,
            bytes@.len() == 64,
            bytes@ == encode_utf8(digest@),
            forall|j: int| 0 <= j < i ==> #[trigger] good_pair(bytes@, j),
        decreases 32 - i,
    {
        if i < 31 && 0x80 <= bytes[2 * i + 2] && bytes[2 * i + 2] < 0xc0 {
            assert(cuts_character(bytes@, 2 * i + 2));
            return true;
        }
        if pair_of(bytes[2 * i], bytes[2 * i + 1]).is_none() {
            proof {
                assert(!good_pair(bytes@, i as int));
                assert forall|k: int|
                    0 <= k < 32 && #[trigger] cuts_character(bytes@, 2 * k + 2) implies exists|
                    j: int,
                |
                    0 <= j < k && !#[trigger] good_pair(bytes@, j) by {
                    if k < i {
                        assert(good_pair(bytes@, k));
                    }
                    assert(k != i);
                }
            }
            return false;
        }
        i += 1;
    }
    proof {
        assert forall|k: int| 0 <= k < 32 implies !#[trigger] cuts_character(bytes@, 2 * k + 2) by {
            assert(good_pair(bytes@, k));
        }
    }
    false
}

/// The digest that a text writes.
pub fn hex_decode_32(value: &str) -> (result: Result<[u8; 32], CatalogError>)
    requires
        !uncuttable(value@),
    ensures
        (match result {
            Ok(digest) => Ok(digest@),
            Err(error) => Err(error@),
        }) == decoded(value@),
{
    let bytes = value.as_bytes();
    if bytes.len() != 64 {
        return Err(
            CatalogError::BackupManifestInvalid("manifest digest has the wrong length".to_owned()),
        );
    }
    let mut digest: [u8; 32] = [0u8; 32];
    let mut i: usize = 0;
    while i < 32
        invariant
            0 <= i <= 32,
            bytes@.len() == 64,
            bytes@ == encode_utf8(value@),
            !uncuttable(value@),
            forall|j: int| 0 <= j < i ==> #[trigger] good_pair(bytes@, j),
            forall|j: int|
                0 <= j < i ==> digest@[j] == pair_value(bytes@[2 * j], bytes@[2 * j + 1])->Some_0,
        decreases 32 - i,
    {
        proof {
            if cuts_character(bytes@, 2 * i + 2) {
                assert(uncuttable(value@));
            }
        }
        match pair_of(bytes[2 * i], bytes[2 * i + 1]) {
            Some(byte) => {
                assert(good_pair(bytes@, i as int));
                digest[i] = byte;
            },
            None => {
                assert(!good_pair(bytes@, i as int));
                return Err(
                    CatalogError::BackupManifestInvalid(
                        "manifest digest is not hexadecimal".to_owned(),
                    ),
                );
            },
        }
        i += 1;
    }
    assert(digest@ =~= decoded(value@)->Ok_0);
    Ok(digest)
}

fn integer_member(value: &Json, name: &str) -> (result: Option<i64>)
    ensures
        result == json::as_integer(json::get(value@, name@)),
{
    match value.get(name) {
        Some(member) => member.as_i64(),
        None => None,
    }
}

fn unsigned_member(value: &Json, name: &str) -> (result: Option<u64>)
    ensures
        result == json::as_unsigned(json::get(value@, name@)),
{
    match value.get(name) {
        Some(member) => member.as_u64(),
        None => None,
    }
}

fn invalid_manifest(reason: &str) -> (result: CatalogError)
    ensures
        result@ == CatalogErrorView::BackupManifestInvalid(reason@),
{
    CatalogError::BackupManifestInvalid(reason.to_owned())
}

/// What a manifest says.
pub fn backup_manifest_from(value: &Json) -> (result: Result<BackupMetadata, CatalogError>)
    requires
        digest_text(value@) matches Some(digest) ==> !uncuttable(digest),
    ensures
        metadata_outcome(result) == manifest_of(value@),
{
    match value {
        Json::Object(_) => {},
        _ => {
            return Err(invalid_manifest("manifest must be a JSON object"));
        },
    }
    let format_version: u64 = match unsigned_member(value, "format_version") {
        Some(number) => number,
        None => {
            return Err(invalid_manifest("manifest format_version is missing"));
        },
    };
    let created_at_ms: i64 = match integer_member(value, "created_at_ms") {
        Some(number) => number,
        None => {
            return Err(invalid_manifest("manifest created_at_ms is missing"));
        },
    };
    let schema_version: i64 = match integer_member(value, "schema_version") {
        Some(number) => number,
        None => {
            return Err(invalid_manifest("manifest schema_version is missing"));
        },
    };
    let latest_event_sequence: u64 = match unsigned_member(value, "latest_event_sequence") {
        Some(number) => number,
        None => {
            return Err(invalid_manifest("manifest latest_event_sequence is missing"));
        },
    };
    let digest = match json::text_member(Some(value), "source_configuration_digest") {
        Some(digest) => digest,
        None => {
            return Err(invalid_manifest("manifest source_configuration_digest is missing"));
        },
    };
    if format_version != 1 {
        return Err(
            CatalogError::BackupManifestInvalid(
                concat2(
                    "unsupported backup manifest version ",
                    decimal_text(format_version).as_str(),
                ),
            ),
        );
    }
    let source_configuration_digest = hex_decode_32(digest)?;
    Ok(
        BackupMetadata {
            format_version: 1,
            created_at_ms,
            schema_version,
            latest_event_sequence,
            source_configuration_digest,
        },
    )
}

/// Reads the bytes of a manifest. `None` where its digest text cannot be cut into pairs. What was
/// written for metadata of the first format version reads back as that metadata.
pub fn read_backup_manifest(bytes: &[u8]) -> (result: Option<Result<BackupMetadata, CatalogError>>)
    ensures
        (match result {
            Some(read) => Some(metadata_outcome(read)),
            None => None,
        }) == manifest_reading(json::json_of_bytes(bytes@)),
        forall|m: MetadataView|
            bytes@ == #[trigger] manifest_bytes(m) && m.format_version == 1
                && m.source_configuration_digest.len() == 32 ==> manifest_reading(
                json::json_of_bytes(bytes@),
            ) == Some(Ok::<MetadataView, CatalogErrorView>(m)),
{
    let read = parse_bytes(bytes);
    proof {
        assert forall|m: MetadataView|
            bytes@ == #[trigger] manifest_bytes(m) && m.format_version == 1
                && m.source_configuration_digest.len() == 32 implies manifest_reading(
            json::json_of_bytes(bytes@),
        ) == Some(Ok::<MetadataView, CatalogErrorView>(m)) by {
            lemma_manifest_is_plain(m);
            lemma_manifest_means_metadata(m);
        }
    }
    let value = match read {
        Ok(value) => value,
        Err(error) => {
            return Some(Err(CatalogError::BackupManifestInvalid(error)));
        },
    };
    match json::text_member(Some(&value), "source_configuration_digest") {
        Some(digest) => {
            if is_uncuttable(digest) && lacks_nothing(&value) {
                return None;
            }
        },
        None => {},
    }
    Some(backup_manifest_from(&value))
}

/// Whether a manifest has all members and the right version.
fn lacks_nothing(value: &Json) -> (result: bool)
    ensures
        result == (manifest_fault(value@) is None),
{
    let object: bool = match value {
        Json::Object(_) => true,
        _ => false,
    };
    object && unsigned_member(value, "format_version") == Some(1u64) && integer_member(
        value,
        "created_at_ms",
    ).is_some() && integer_member(value, "schema_version").is_some() && unsigned_member(
        value,
        "latest_event_sequence",
    ).is_some() && json::text_member(Some(value), "source_configuration_digest").is_some()
}

proof fn lemma_hex_is_plain(bytes: Seq<u8>)
    ensures
        json::plain_text(text::hex(bytes)),
        is_ascii_chars(text::hex(bytes)),
{
    let written = text::hex(bytes);
    assert forall|i: int| 0 <= i < written.len() implies ' ' <= #[trigger] written[i] <= '~'
        && written[i] != '"' && written[i] != '\\' by {
        let value: int = if i % 2 == 0 {
            bytes[i / 2] as int / 16
        } else {
            bytes[i / 2] as int % 16
        };
        assert(0 <= value < 16);
        assert(written[i] == text::hex_digit(value));
    }
}

proof fn lemma_manifest_is_plain(m: MetadataView)
    ensures
        json::plain_members(manifest_members(m)),
{
    reveal_strlit("format_version");
    reveal_strlit("created_at_ms");
    reveal_strlit("schema_version");
    reveal_strlit("latest_event_sequence");
    reveal_strlit("source_configuration_digest");
    lemma_hex_is_plain(m.source_configuration_digest);
    let members = manifest_members(m);
    assert(json::plain_text("format_version"@));
    assert(json::plain_text("created_at_ms"@));
    assert(json::plain_text("schema_version"@));
    assert(json::plain_text("latest_event_sequence"@));
    assert(json::plain_text("source_configuration_digest"@));
    assert forall|i: int| 0 <= i < members.len() implies json::plain_member(
        #[trigger] members[i],
    ) by {
        assert(i == 0 || i == 1 || i == 2 || i == 3 || i == 4);
    }
}

proof fn lemma_digest_reads_back(digest: Seq<u8>)
    requires
        digest.len() == 32,
    ensures
        !uncuttable(text::hex(digest)),
        decoded(text::hex(digest)) == Ok::<Seq<u8>, CatalogErrorView>(digest),
{
    let written = text::hex(digest);
    let bytes = encode_utf8(written);
    lemma_hex_is_plain(digest);
    is_ascii_chars_encode_utf8(written);
    assert(bytes.len() == 64);
    assert forall|i: int| 0 <= i < 64 implies bytes[i] == written[i] as u8 && bytes[i] < 0x80 by {
        assert(' ' <= written[i] <= '~');
    }
    assert forall|i: int| 0 <= i < 32 implies #[trigger] good_pair(bytes, i) && pair_value(
        bytes[2 * i],
        bytes[2 * i + 1],
    ) == Some(digest[i]) by {
        let high = 2 * i;
        let low = 2 * i + 1;
        assert(high / 2 == i && low / 2 == i && high % 2 == 0 && low % 2 == 1);
        assert(written[high] == text::hex_digit(digest[high / 2] as int / 16));
        assert(written[low] == text::hex_digit(digest[low / 2] as int % 16));
        if 2 * i + 2 < 64 {
            assert(bytes[2 * i + 2] < 0x80);
        }
    }
    assert forall|k: int| 0 <= k < 32 implies !#[trigger] cuts_character(bytes, 2 * k + 2) by {
        assert(good_pair(bytes, k));
    }
    assert(decoded(written)->Ok_0 =~= digest);
}

/// A digest reads back from the hexadecimal digits that it is written in.
pub proof fn law_digest_reads_back(digest: Seq<u8>)
    requires
        digest.len() == 32,
    ensures
        decoded(text::hex(digest)) == Ok::<Seq<u8>, CatalogErrorView>(digest),
{
    lemma_digest_reads_back(digest);
}

proof fn lemma_manifest_means_metadata(m: MetadataView)
    requires
        m.format_version == 1,
        m.source_configuration_digest.len() == 32,
    ensures
        manifest_reading(
            Ok::<JsonView, Seq<char>>(JsonView::Object(json::plain_object(manifest_members(m)))),
        ) == Some(Ok::<MetadataView, CatalogErrorView>(m)),
{
    let members = manifest_members(m);
    let value = JsonView::Object(json::plain_object(members));
    reveal_strlit("format_version");
    reveal_strlit("created_at_ms");
    reveal_strlit("schema_version");
    reveal_strlit("latest_event_sequence");
    reveal_strlit("source_configuration_digest");
    assert("format_version"@.len() == 14);
    assert("created_at_ms"@.len() == 13);
    assert("schema_version"@.len() == 14 && "schema_version"@[0] == 's');
    assert("format_version"@[0] == 'f');
    assert("latest_event_sequence"@.len() == 21);
    assert("source_configuration_digest"@.len() == 27);
    reveal_with_fuel(json::plain_object, 6);
    let m4 = members.drop_last();
    let m3 = m4.drop_last();
    let m2 = m3.drop_last();
    let m1 = m2.drop_last();
    assert(m1.drop_last() =~= Seq::empty());
    assert(members.last() == members[4]);
    assert(m4.last() == members[3]);
    assert(m3.last() == members[2]);
    assert(m2.last() == members[1]);
    assert(m1.last() == members[0]);
    assert(json::get(value, "format_version"@) == Some(members[0].1));
    assert(json::get(value, "created_at_ms"@) == Some(members[1].1));
    assert(json::get(value, "schema_version"@) == Some(members[2].1));
    assert(json::get(value, "latest_event_sequence"@) == Some(members[3].1));
    assert(json::get(value, "source_configuration_digest"@) == Some(members[4].1));
    lemma_digest_reads_back(m.source_configuration_digest);
    assert(manifest_of(value)->Ok_0 =~= m);
}

/// What a backup of the catalog says in its manifest.
pub open spec fn catalog_metadata(m: LedgerView, digest: Seq<u8>, created_at_ms: i64) -> MetadataView {
    MetadataView {
        format_version: 1,
        created_at_ms,
        schema_version: SCHEMA_VERSION,
        latest_event_sequence: m.latest_sequence(),
        source_configuration_digest: digest,
    }
}

/// What the caller has seen of a destination.
#[derive(Clone, Copy, Debug, Eq, PartialEq, Structural)]
pub struct DestinationState {
    /// The parent is a directory and no link to one.
    pub parent_is_directory: bool,
    /// The destination or its manifest exists.
    pub taken: bool,
}

/// The artifact that metadata makes at a destination: it never replaces anything.
pub open spec fn placed(destination: Seq<char>, state: DestinationState, metadata: MetadataView) -> Result<
    ArtifactView,
    CatalogErrorView,
> {
    match destination_fault(destination, state.parent_is_directory) {
        Some(reason) => Err(CatalogErrorView::InvalidBackupDestination(reason)),
        None => if state.taken {
            Err(CatalogErrorView::BackupDestinationExists(destination))
        } else {
            Ok(
                ArtifactView {
                    catalog_path: destination,
                    manifest_path: manifest_place(destination),
                    metadata,
                },
            )
        },
    }
}

/// What the manifest alone says of an artifact.
pub open spec fn manifest_verdict(
    path: Seq<char>,
    parent_is_directory: bool,
    read: Result<JsonView, Seq<char>>,
    expected: Seq<u8>,
) -> Option<Result<ArtifactView, CatalogErrorView>> {
    match destination_fault(path, parent_is_directory) {
        Some(reason) => Some(Err(CatalogErrorView::InvalidBackupDestination(reason))),
        None => match manifest_reading(read) {
            None => None,
            Some(Err(error)) => Some(Err(error)),
            Some(Ok(metadata)) => Some(
                if metadata.source_configuration_digest != expected {
                    Err(CatalogErrorView::BackupSourceConfigurationMismatch)
                } else {
                    Ok(
                        ArtifactView {
                            catalog_path: path,
                            manifest_path: manifest_place(path),
                            metadata,
                        },
                    )
                },
            ),
        },
    }
}

/// What the stored catalog says of an artifact whose manifest is in order.
pub open spec fn stored_verdict(artifact: ArtifactView, found_schema: i64, latest_event: i64) -> Result<
    ArtifactView,
    CatalogErrorView,
> {
    if artifact.metadata.schema_version != found_schema {
        Err(CatalogErrorView::BackupManifestMismatch)
    } else if latest_event < 0 {
        Err(CatalogErrorView::Corrupt("negative backup event sequence"@))
    } else if artifact.metadata.latest_event_sequence != latest_event {
        Err(CatalogErrorView::BackupManifestMismatch)
    } else {
        Ok(artifact)
    }
}

impl BackupArtifact {
    /// Holds an artifact whose manifest is in order against what its catalog stores: the layout
    /// version and the number of the last event.
    pub fn confirm(self, found_schema: i64, latest_event: i64) -> (result: Result<
        BackupArtifact,
        CatalogError,
    >)
        ensures
            artifact_outcome(result) == stored_verdict(self@, found_schema, latest_event),
    {
        if self.metadata.schema_version != found_schema {
            return Err(CatalogError::BackupManifestMismatch);
        }
        proof {
            reveal_strlit("negative backup event sequence");
            reveal_strlit("negative ");
            reveal_strlit("backup event sequence");
            assert("negative "@ + "backup event sequence"@ =~= "negative backup event sequence"@);
        }
        let latest: u64 = as_u64(latest_event, "backup event sequence")?;
        if self.metadata.latest_event_sequence != latest {
            return Err(CatalogError::BackupManifestMismatch);
        }
        Ok(self)
    }
}

/// Reads the manifest beside an artifact and holds it against the expected source configuration.
/// `None` where the manifest's digest text cannot be cut into pairs.
pub fn check_backup_manifest(
    path: &str,
    parent_is_directory: bool,
    manifest: &[u8],
    expected: &[u8; 32],
) -> (result: Option<Result<BackupArtifact, CatalogError>>)
    ensures
        (match result {
            Some(verdict) => Some(artifact_outcome(verdict)),
            None => None,
        }) == manifest_verdict(
            path@,
            parent_is_directory,
            json::json_of_bytes(manifest@),
            expected@,
        ),
        forall|m: MetadataView|
            manifest@ == #[trigger] manifest_bytes(m) && m.format_version == 1
                && m.source_configuration_digest.len() == 32 ==> manifest_reading(
                json::json_of_bytes(manifest@),
            ) == Some(Ok::<MetadataView, CatalogErrorView>(m)),
{
    let read = read_backup_manifest(manifest);
    match validate_backup_destination(path, parent_is_directory) {
        Ok(_) => {},
        Err(error) => {
            return Some(Err(error));
        },
    }
    let manifest_path = match backup_manifest_path(path) {
        Ok(place) => place,
        Err(error) => {
            return Some(Err(error));
        },
    };
    match read {
        None => None,
        Some(Err(error)) => Some(Err(error)),
        Some(Ok(metadata)) => {
            if !same_bytes(
                vstd::array::array_as_slice(&metadata.source_configuration_digest),
                vstd::array::array_as_slice(expected),
            ) {
                return Some(Err(CatalogError::BackupSourceConfigurationMismatch));
            }
            Some(Ok(BackupArtifact { catalog_path: path.to_owned(), manifest_path, metadata }))
        },
    }
}

/// What stands at a catalog's path, and the manifest beside it.
#[derive(Debug, Eq, PartialEq)]
pub struct StoredCatalog {
    pub manifest: Vec<u8>,
    /// The layout that the tables were found in.
    pub schema_version: i64,
    pub columns: CatalogColumns,
}

/// The greatest number of a stored event, or zero where there is none.
pub open spec fn last_stored(rows: Seq<EventColumns>) -> i64
    decreases rows.len(),
{
    if rows.len() == 0 {
        0
    } else if rows.len() == 1 || rows.last().sequence > last_stored(rows.drop_last()) {
        rows.last().sequence
    } else {
        last_stored(rows.drop_last())
    }
}

/// Whether a catalog is stored in the current layout, with this manifest beside it.
pub open spec fn stored_as(stored: StoredCatalog, m: LedgerView, metadata: MetadataView) -> bool {
    &&& stored.manifest@ == manifest_bytes(metadata)
    &&& stored.schema_version == SCHEMA_VERSION
    &&& rows::catalog_meaning(stored.columns) == Ok::<LedgerView, CatalogErrorView>(m)
}

/// What a backup is worth whose manifest reads like this.
pub open spec fn backup_verdict(
    path: Seq<char>,
    parent_is_directory: bool,
    read: Result<JsonView, Seq<char>>,
    found_schema: i64,
    latest_event: i64,
    expected: Seq<u8>,
) -> Option<Result<ArtifactView, CatalogErrorView>> {
    match manifest_verdict(path, parent_is_directory, read, expected) {
        Some(Ok(artifact)) => Some(stored_verdict(artifact, found_schema, latest_event)),
        Some(Err(error)) => Some(Err(error)),
        None => None,
    }
}

/// The greatest number of a stored event, or zero where there is none.
fn find_last_stored(rows: &Vec<EventColumns>) -> (result: i64)
    ensures
        result == last_stored(rows@),
{
    let mut last: i64 = 0;
    let mut i: usize = 0;
    while i < rows.len()
        invariant
            0 <= i <= rows@.len(),
            last == last_stored(rows@.take(i as int)),
        decreases rows@.len() - i,
    {
        assert(rows@.take(i + 1).drop_last() =~= rows@.take(i as int));
        assert(rows@.take(i + 1).last() == rows@[i as int]);
        if i == 0 || rows[i].sequence > last {
            last = rows[i].sequence;
        }
        i += 1;
    }
    assert(rows@.take(rows@.len() as int) =~= rows@);
    last
}

proof fn lemma_event_numbers(stored: Seq<EventColumns>, events: Seq<EventView>)
    requires
        rows::table_meaning(stored) == Ok::<Seq<EventView>, CatalogErrorView>(events),
        forall|a: int, b: int|
            0 <= a < b < events.len() ==> (#[trigger] events[a]).sequence < (
            #[trigger] events[b]).sequence,
    ensures
        events.len() == stored.len(),
        last_stored(stored) == (if events.len() == 0 {
            0
        } else {
            events.last().sequence as int
        }),
    decreases stored.len(),
{
    if stored.len() > 0 {
        let before = events.drop_last();
        let row = rows::table_meaning(stored.drop_last())->Ok_0;
        assert(row =~= before);
        assert forall|a: int, b: int| 0 <= a < b < before.len() implies (
        #[trigger] before[a]).sequence < (#[trigger] before[b]).sequence by {
            assert(events[a].sequence < events[b].sequence);
        }
        lemma_event_numbers(stored.drop_last(), before);
        if stored.len() > 1 {
            assert(events[events.len() - 2].sequence < events[events.len() - 1].sequence);
        }
    }
}

/// The tables of a catalog name its last event.
proof fn lemma_last_stored(columns: CatalogColumns, m: LedgerView)
    requires
        rows::catalog_meaning(columns) == Ok::<LedgerView, CatalogErrorView>(m),
    ensures
        last_stored(columns.events@) == m.latest_sequence(),
{
    lemma_event_numbers(columns.events@, m.events);
}

impl Catalog {
    /// The artifact that a backup of the catalog makes at a destination, and what is stored there.
    pub fn backup_to(
        &self,
        destination: &str,
        state: DestinationState,
        source_configuration_digest: [u8; 32],
        created_at_ms: i64,
    ) -> (result: Result<(BackupArtifact, StoredCatalog), CatalogError>)
        requires
            self.wf(),
        ensures
            ({
                let metadata = catalog_metadata(self@, source_configuration_digest@, created_at_ms);
                match placed(destination@, state, metadata) {
                    Ok(expected) => {
                        &&& result matches Ok((artifact, stored))
                        &&& artifact@ == expected
                        &&& stored_as(stored, self@, metadata)
                    },
                    Err(expected) => {
                        &&& result matches Err(error)
                        &&& error@ == expected
                    },
                }
            }),
    {
        validate_backup_destination(destination, state.parent_is_directory)?;
        let manifest_path = backup_manifest_path(destination)?;
        if state.taken {
            return Err(CatalogError::BackupDestinationExists(destination.to_owned()));
        }
        let metadata = BackupMetadata {
            format_version: 1,
            created_at_ms,
            schema_version: SCHEMA_VERSION,
            latest_event_sequence: self.last_sequence(),
            source_configuration_digest,
        };
        let stored = StoredCatalog {
            manifest: write_backup_manifest(&metadata),
            schema_version: SCHEMA_VERSION,
            columns: self.to_columns(),
        };
        let artifact = BackupArtifact {
            catalog_path: destination.to_owned(),
            manifest_path,
            metadata,
        };
        Ok((artifact, stored))
    }

    /// Holds a backup against its manifest, the expected source configuration and what its
    /// catalog stores. `None` where the manifest's digest text cannot be cut into pairs. What was
    /// stored for metadata of the first format version has that metadata.
    pub fn validate_backup(
        path: &str,
        parent_is_directory: bool,
        stored: &StoredCatalog,
        expected: &[u8; 32],
    ) -> (result: Option<Result<BackupArtifact, CatalogError>>)
        ensures
            (match result {
                Some(verdict) => Some(artifact_outcome(verdict)),
                None => None,
            }) == backup_verdict(
                path@,
                parent_is_directory,
                json::json_of_bytes(stored.manifest@),
                stored.schema_version,
                last_stored(stored.columns.events@),
                expected@,
            ),
            forall|m: MetadataView|
                stored.manifest@ == #[trigger] manifest_bytes(m) && m.format_version == 1
                    && m.source_configuration_digest.len() == 32 ==> manifest_reading(
                    json::json_of_bytes(stored.manifest@),
                ) == Some(Ok::<MetadataView, CatalogErrorView>(m)),
    {
        let manifest = stored.manifest.as_slice();
        match check_backup_manifest(path, parent_is_directory, manifest, expected) {
            None => None,
            Some(Err(error)) => Some(Err(error)),
            Some(Ok(artifact)) => Some(
                artifact.confirm(stored.schema_version, find_last_stored(&stored.columns.events)),
            ),
        }
    }

    /// The artifact that restoring a backup makes at a destination, and what is stored there: the
    /// same tables in the same layout, behind a manifest of the same metadata. A backup that is
    /// not valid is not restored, and nothing at the destination is ever replaced. `None` where
    /// the manifest's digest text cannot be cut into pairs.
    ///
    /// So a backup of a catalog, restored, is that catalog with all its records, revisions, events
    /// and deliveries.
    pub fn restore_backup_to(
        path: &str,
        parent_is_directory: bool,
        stored: StoredCatalog,
        destination: &str,
        state: DestinationState,
        expected: &[u8; 32],
    ) -> (result: Option<Result<(BackupArtifact, StoredCatalog), CatalogError>>)
        ensures
            match backup_verdict(
                path@,
                parent_is_directory,
                json::json_of_bytes(stored.manifest@),
                stored.schema_version,
                last_stored(stored.columns.events@),
                expected@,
            ) {
                None => result is None,
                Some(Err(refusal)) => {
                    &&& result matches Some(Err(error))
                    &&& error@ == refusal
                },
                Some(Ok(valid)) => match placed(destination@, state, valid.metadata) {
                    Err(refusal) => {
                        &&& result matches Some(Err(error))
                        &&& error@ == refusal
                    },
                    Ok(restored) => {
                        &&& result matches Some(Ok((artifact, copy)))
                        &&& artifact@ == restored
                        &&& copy.manifest@ == manifest_bytes(valid.metadata)
                        &&& copy.schema_version == stored.schema_version
                        &&& copy.columns == stored.columns
                    },
                },
            },
            forall|m: LedgerView, created_at_ms: i64|
                #![trigger catalog_metadata(m, expected@, created_at_ms)]
                {
                    let metadata = catalog_metadata(m, expected@, created_at_ms);
                    &&& stored_as(stored, m, metadata)
                    &&& destination_fault(path@, parent_is_directory) is None
                    &&& placed(destination@, state, metadata) is Ok
                } ==> {
                    let metadata = catalog_metadata(m, expected@, created_at_ms);
                    &&& result matches Some(Ok((artifact, copy)))
                    &&& artifact@ == placed(destination@, state, metadata)->Ok_0
                    &&& stored_as(copy, m, metadata)
                },
    {
        let ghost whole = stored;
        let ghost read = json::json_of_bytes(stored.manifest@);
        let ghost latest = last_stored(stored.columns.events@);
        let verdict = Self::validate_backup(path, parent_is_directory, &stored, expected);
        proof {
            assert forall|m: LedgerView, created_at_ms: i64|
                #![trigger catalog_metadata(m, expected@, created_at_ms)]
                stored_as(whole, m, catalog_metadata(m, expected@, created_at_ms))
                    && destination_fault(path@, parent_is_directory) is None implies backup_verdict(
                path@,
                parent_is_directory,
                read,
                whole.schema_version,
                latest,
                expected@,
            ) == Some(
                Ok::<ArtifactView, CatalogErrorView>(
                    ArtifactView {
                        catalog_path: path@,
                        manifest_path: manifest_place(path@),
                        metadata: catalog_metadata(m, expected@, created_at_ms),
                    },
                ),
            ) by {
                let metadata = catalog_metadata(m, expected@, created_at_ms);
                assert(whole.manifest@ == manifest_bytes(metadata));
                law_stored_catalog_validates(
                    whole,
                    m,
                    metadata,
                    path@,
                    parent_is_directory,
                    read,
                    expected@,
                );
            }
        }
        let valid = match verdict {
            None => {
                return None;
            },
            Some(Err(error)) => {
                return Some(Err(error));
            },
            Some(Ok(valid)) => valid,
        };
        match validate_backup_destination(destination, state.parent_is_directory) {
            Ok(_) => {},
            Err(error) => {
                return Some(Err(error));
            },
        }
        if state.taken {
            return Some(Err(CatalogError::BackupDestinationExists(destination.to_owned())));
        }
        let copy = StoredCatalog {
            manifest: write_backup_manifest(&valid.metadata),
            schema_version: stored.schema_version,
            columns: stored.columns,
        };
        assert(copy.manifest@ == manifest_bytes(valid@.metadata));
        match Self::validate_backup(destination, state.parent_is_directory, &copy, expected) {
            None => None,
            Some(Err(error)) => Some(Err(error)),
            Some(Ok(artifact)) => Some(Ok((artifact, copy))),
        }
    }
}

/// The layout versions that a stored catalog still lacks, in order.
pub open spec fn lacking(found: i64) -> Seq<i64> {
    Seq::new(
        (if found < 0 {
            SCHEMA_VERSION as int
        } else {
            SCHEMA_VERSION - found
        }) as nat,
        |i: int| ((if found < 0 {
            0
        } else {
            found as int
        }) + i + 1) as i64,
    )
}

/// The layout versions that a stored catalog still lacks. A newer layout is refused.
pub fn pending_migrations(found: i64) -> (result: Result<Vec<i64>, CatalogError>)
    ensures
        match result {
            Ok(versions) => found <= SCHEMA_VERSION && versions@ == lacking(found),
            Err(error) => found > SCHEMA_VERSION && error@ == (CatalogErrorView::NewerSchema {
                found,
                supported: SCHEMA_VERSION,
            }),
        },
{
    if found > SCHEMA_VERSION {
        return Err(CatalogError::NewerSchema { found, supported: SCHEMA_VERSION });
    }
    let mut versions: Vec<i64> = Vec::new();
    let start: i64 = if found < 0 {
        0
    } else {
        found
    };
    let mut version: i64 = start;
    while version < SCHEMA_VERSION
        invariant
            start == (if found < 0 {
                0
            } else {
                found as int
            }),
            start <= version <= SCHEMA_VERSION,
            versions@.len() == version - start,
            forall|i: int| 0 <= i < versions@.len() ==> versions@[i] == start + i + 1,
        decreases SCHEMA_VERSION - version,
    {
        version += 1;
        versions.push(version);
    }
    assert(versions@ =~= lacking(found));
    Ok(versions)
}

/// A backup that takes its place validates: read back from the manifest written for it, with the
/// layout version and the last event number that its catalog stores, it is the same artifact.
pub proof fn law_backup_validates(
    m: LedgerView,
    destination: Seq<char>,
    state: DestinationState,
    digest: Seq<u8>,
    created_at_ms: i64,
    read: Result<JsonView, Seq<char>>,
)
    requires
        digest.len() == 32,
        m.wf(),
        json::plain_objects_read_back(
            manifest_bytes(catalog_metadata(m, digest, created_at_ms)),
            read,
        ),
        placed(destination, state, catalog_metadata(m, digest, created_at_ms)) is Ok,
    ensures
        manifest_verdict(destination, state.parent_is_directory, read, digest) == Some(
            placed(destination, state, catalog_metadata(m, digest, created_at_ms)),
        ),
        stored_verdict(
            placed(destination, state, catalog_metadata(m, digest, created_at_ms))->Ok_0,
            SCHEMA_VERSION,
            m.latest_sequence() as i64,
        ) == placed(destination, state, catalog_metadata(m, digest, created_at_ms)),
{
    let metadata = catalog_metadata(m, digest, created_at_ms);
    lemma_manifest_is_plain(metadata);
    lemma_manifest_means_metadata(metadata);
    if m.events.len() > 0 {
        assert(crate::ledger::event_ok(m.events[m.events.len() - 1]));
    }
}

/// What was stored of a catalog is valid wherever it stands, under its own source configuration
/// and under no other.
pub proof fn law_stored_catalog_validates(
    stored: StoredCatalog,
    m: LedgerView,
    metadata: MetadataView,
    path: Seq<char>,
    parent_is_directory: bool,
    read: Result<JsonView, Seq<char>>,
    expected: Seq<u8>,
)
    requires
        stored_as(stored, m, metadata),
        metadata == catalog_metadata(
            m,
            metadata.source_configuration_digest,
            metadata.created_at_ms,
        ),
        manifest_reading(read) == Some(Ok::<MetadataView, CatalogErrorView>(metadata)),
        destination_fault(path, parent_is_directory) is None,
    ensures
        backup_verdict(
            path,
            parent_is_directory,
            read,
            stored.schema_version,
            last_stored(stored.columns.events@),
            expected,
        ) == Some(
            if metadata.source_configuration_digest == expected {
                Ok::<ArtifactView, CatalogErrorView>(
                    ArtifactView {
                        catalog_path: path,
                        manifest_path: manifest_place(path),
                        metadata,
                    },
                )
            } else {
                Err(CatalogErrorView::BackupSourceConfigurationMismatch)
            },
        ),
{
    lemma_last_stored(stored.columns, m);
}

/// A restored catalog is the one that was backed up: what is read from the tables that a restore
/// stored has the same current records, the same revisions, the same events behind every number,
/// and the same deliveries in every state.
pub proof fn law_restored_catalog_is_the_backed_up_one(
    m: LedgerView,
    metadata: MetadataView,
    stored: StoredCatalog,
    copy: StoredCatalog,
    n: LedgerView,
    identity: IdentityView,
    sequence: u64,
    subscription_id: SubscriptionId,
    state: DeliveryState,
)
    requires
        stored_as(stored, m, metadata),
        copy.columns == stored.columns,
        rows::catalog_meaning(copy.columns) == Ok::<LedgerView, CatalogErrorView>(n),
    ensures
        n == m,
        records::current(n, identity) == records::current(m, identity),
        records::events_behind(n.events, sequence) == records::events_behind(m.events, sequence),
        n.revisions == m.revisions,
        leases::count_in(n.deliveries, subscription_id, state) == leases::count_in(
            m.deliveries,
            subscription_id,
            state,
        ),
{
}

/// Nothing at a destination is ever replaced, neither by a backup nor by a restore.
pub proof fn law_backup_never_replaces(
    destination: Seq<char>,
    state: DestinationState,
    metadata: MetadataView,
)
    requires
        state.taken,
        destination_fault(destination, state.parent_is_directory) is None,
    ensures
        placed(destination, state, metadata) == Err::<ArtifactView, CatalogErrorView>(
            CatalogErrorView::BackupDestinationExists(destination),
        ),
{
}

/// A backup of another source configuration is refused whatever else holds of it.
pub proof fn law_other_configuration_is_refused(
    path: Seq<char>,
    parent_is_directory: bool,
    read: Result<JsonView, Seq<char>>,
    found_schema: i64,
    latest_event: i64,
    metadata: MetadataView,
    expected: Seq<u8>,
)
    requires
        destination_fault(path, parent_is_directory) is None,
        manifest_reading(read) == Some(Ok::<MetadataView, CatalogErrorView>(metadata)),
        metadata.source_configuration_digest != expected,
    ensures
        backup_verdict(path, parent_is_directory, read, found_schema, latest_event, expected)
            == Some(
            Err::<ArtifactView, CatalogErrorView>(
                CatalogErrorView::BackupSourceConfigurationMismatch,
            ),
        ),
{
}

/// After its pending migrations a catalog of an older layout has the current one.
pub proof fn law_migrations_reach_current(found: i64)
    requires
        found < SCHEMA_VERSION,
    ensures
        lacking(found).len() > 0,
        lacking(found).last() == SCHEMA_VERSION,
        forall|i: int|
            0 <= i < lacking(found).len() - 1 ==> #[trigger] lacking(found)[i] + 1 == lacking(
                found,
            )[i + 1],
{
}

} // verus!
