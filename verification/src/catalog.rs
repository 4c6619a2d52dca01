//! Source registrations, fingerprints and the errors of the catalog.
use crate::domain::{DomainError, DomainErrorView, LocationView, LogicalLocation, ProducerId};
use crate::text;
use crate::text::{concat2, label_ok, signed_decimal_text};
use vstd::prelude::*;

verus! {

/// The layout of stored rows that this crate reads and writes.
pub const SCHEMA_VERSION: i64 = 7;

/// The largest number a stored integer column holds.
pub const MAX_STORED: u64 = 0x7fff_ffff_ffff_ffff;

/// A rule of the stored tables that a change would break.
#[derive(Clone, Copy, Debug, Eq, PartialEq, Structural)]
pub enum ConstraintFault {
    /// A fresh identifier is already taken.
    DuplicateIdentifier,
    /// An ascending row number has no successor.
    NumberExhausted,
}

/// Why a catalog operation was refused.
#[derive(Debug, Eq, PartialEq)]
pub enum CatalogError {
    Domain(DomainError),
    Constraint(ConstraintFault),
    NewerSchema { found: i64, supported: i64 },
    Corrupt(String),
    ClockBeforeEpoch,
    InvalidSourceRegistration(String),
    SourceRegistrationConflict(String),
    InvalidTombstoneGrace(String),
    SourceScanConflict(String),
    InvalidBackupDestination(String),
    BackupDestinationExists(String),
    BackupManifestInvalid(String),
    BackupManifestMismatch,
    BackupSourceConfigurationMismatch,
}

/// A `CatalogError` with its texts as character sequences.
pub enum CatalogErrorView {
    Domain(DomainErrorView),
    Constraint(ConstraintFault),
    NewerSchema { found: i64, supported: i64 },
    Corrupt(Seq<char>),
    ClockBeforeEpoch,
    InvalidSourceRegistration(Seq<char>),
    SourceRegistrationConflict(Seq<char>),
    InvalidTombstoneGrace(Seq<char>),
    SourceScanConflict(Seq<char>),
    InvalidBackupDestination(Seq<char>),
    BackupDestinationExists(Seq<char>),
    BackupManifestInvalid(Seq<char>),
    BackupManifestMismatch,
    BackupSourceConfigurationMismatch,
}

impl View for CatalogError {
    type V = CatalogErrorView;

    open spec fn view(&self) -> CatalogErrorView {
        match *self {
            CatalogError::Domain(error) => CatalogErrorView::Domain(error@),
            CatalogError::Constraint(fault) => CatalogErrorView::Constraint(fault),
            CatalogError::NewerSchema { found, supported } => CatalogErrorView::NewerSchema {
                found,
                supported,
            },
            CatalogError::Corrupt(m) => CatalogErrorView::Corrupt(m@),
            CatalogError::ClockBeforeEpoch => CatalogErrorView::ClockBeforeEpoch,
            CatalogError::InvalidSourceRegistration(m) => {
                CatalogErrorView::InvalidSourceRegistration(m@)
            },
            CatalogError::SourceRegistrationConflict(m) => {
                CatalogErrorView::SourceRegistrationConflict(m@)
            },
            CatalogError::InvalidTombstoneGrace(m) => CatalogErrorView::InvalidTombstoneGrace(m@),
            CatalogError::SourceScanConflict(m) => CatalogErrorView::SourceScanConflict(m@),
            CatalogError::InvalidBackupDestination(m) => {
                CatalogErrorView::InvalidBackupDestination(m@)
            },
            CatalogError::BackupDestinationExists(m) => CatalogErrorView::BackupDestinationExists(m@),
            CatalogError::BackupManifestInvalid(m) => CatalogErrorView::BackupManifestInvalid(m@),
            CatalogError::BackupManifestMismatch => CatalogErrorView::BackupManifestMismatch,
            CatalogError::BackupSourceConfigurationMismatch => {
                CatalogErrorView::BackupSourceConfigurationMismatch
            },
        }
    }
}

/// The message of a catalog error.
pub open spec fn catalog_message(error: CatalogErrorView) -> Seq<char> {
    match error {
        CatalogErrorView::Domain(inner) => crate::domain::domain_message(inner),
        CatalogErrorView::Constraint(ConstraintFault::DuplicateIdentifier) => {
            "catalog constraint failed: identifier is already in use"@
        },
        CatalogErrorView::Constraint(ConstraintFault::NumberExhausted) => {
            "catalog constraint failed: row numbers are exhausted"@
        },
        CatalogErrorView::NewerSchema { found, supported } => "catalog schema version "@
            + text::signed_decimal(found as int) + " is newer than this binary supports ("@
            + text::signed_decimal(supported as int) + ")"@,
        CatalogErrorView::Corrupt(m) => "catalog data is corrupt: "@ + m,
        CatalogErrorView::ClockBeforeEpoch => "system clock is before the Unix epoch"@,
        CatalogErrorView::InvalidSourceRegistration(m) => "invalid source registration: "@ + m,
        CatalogErrorView::SourceRegistrationConflict(m) => "source registration conflict: "@ + m,
        CatalogErrorView::InvalidTombstoneGrace(m) => "invalid tombstone grace: "@ + m,
        CatalogErrorView::SourceScanConflict(m) => "source scan is stale or not active: "@ + m,
        CatalogErrorView::InvalidBackupDestination(m) => "invalid backup destination: "@ + m,
        CatalogErrorView::BackupDestinationExists(m) => "backup destination already exists: "@ + m,
        CatalogErrorView::BackupManifestInvalid(m) => "backup manifest is invalid: "@ + m,
        CatalogErrorView::BackupManifestMismatch => {
            "backup manifest does not match its SQLite artifact"@
        },
        CatalogErrorView::BackupSourceConfigurationMismatch => {
            "backup source configuration digest does not match the expected deployment configuration"@
        },
    }
}

impl CatalogError {
    /// The message for an operator.
    pub fn message(&self) -> (result: String)
        ensures
            result@ == catalog_message(self@),
    {
        match self {
            CatalogError::Domain(inner) => inner.message(),
            CatalogError::Constraint(ConstraintFault::DuplicateIdentifier) => {
                "catalog constraint failed: identifier is already in use".to_owned()
            },
            CatalogError::Constraint(ConstraintFault::NumberExhausted) => {
                "catalog constraint failed: row numbers are exhausted".to_owned()
            },
            CatalogError::NewerSchema { found, supported } => {
                let mut message = concat2(
                    "catalog schema version ",
                    signed_decimal_text(*found).as_str(),
                );
                message.append(" is newer than this binary supports (");
                message.append(signed_decimal_text(*supported).as_str());
                message.append(")");
                message
            },
            CatalogError::Corrupt(m) => concat2("catalog data is corrupt: ", m.as_str()),
            CatalogError::ClockBeforeEpoch => "system clock is before the Unix epoch".to_owned(),
            CatalogError::InvalidSourceRegistration(m) => concat2(
                "invalid source registration: ",
                m.as_str(),
            ),
            CatalogError::SourceRegistrationConflict(m) => concat2(
                "source registration conflict: ",
                m.as_str(),
            ),
            CatalogError::InvalidTombstoneGrace(m) => concat2(
                "invalid tombstone grace: ",
                m.as_str(),
            ),
            CatalogError::SourceScanConflict(m) => concat2(
                "source scan is stale or not active: ",
                m.as_str(),
            ),
            CatalogError::InvalidBackupDestination(m) => concat2(
                "invalid backup destination: ",
                m.as_str(),
            ),
            CatalogError::BackupDestinationExists(m) => concat2(
                "backup destination already exists: ",
                m.as_str(),
            ),
            CatalogError::BackupManifestInvalid(m) => concat2(
                "backup manifest is invalid: ",
                m.as_str(),
            ),
            CatalogError::BackupManifestMismatch => {
                "backup manifest does not match its SQLite artifact".to_owned()
            },
            CatalogError::BackupSourceConfigurationMismatch => {
                "backup source configuration digest does not match the expected deployment configuration".to_owned()
            },
        }
    }
}

/// `value` as a stored integer.
pub fn as_i64(value: u64, field: &str) -> (result: Result<i64, CatalogError>)
    ensures
        match result {
            Ok(number) => value <= MAX_STORED && number == value,
            Err(error) => value > MAX_STORED && error@ == CatalogErrorView::Corrupt(
                field@ + " exceeds SQLite INTEGER range"@,
            ),
        },
{
    if value <= MAX_STORED {
        Ok(value as i64)
    } else {
        Err(CatalogError::Corrupt(concat2(field, " exceeds SQLite INTEGER range")))
    }
}

/// An optional value as an optional stored integer.
pub fn optional_as_i64(value: Option<u64>, field: &str) -> (result: Result<
    Option<i64>,
    CatalogError,
>)
    ensures
        match (value, result) {
            (None, Ok(stored)) => stored is None,
            (Some(inner), Ok(stored)) => inner <= MAX_STORED && stored == Some(inner as i64),
            (Some(inner), Err(error)) => inner > MAX_STORED && error@ == CatalogErrorView::Corrupt(
                field@ + " exceeds SQLite INTEGER range"@,
            ),
            (None, Err(error)) => false,
        },
{
    match value {
        Some(inner) => match as_i64(inner, field) {
            Ok(number) => Ok(Some(number)),
            Err(error) => Err(error),
        },
        None => Ok(None),
    }
}

/// A stored integer as a count.
pub fn as_u64(value: i64, field: &str) -> (result: Result<u64, CatalogError>)
    ensures
        match result {
            Ok(number) => value >= 0 && number == value,
            Err(error) => value < 0 && error@ == CatalogErrorView::Corrupt("negative "@ + field@),
        },
{
    if value >= 0 {
        Ok(value as u64)
    } else {
        Err(CatalogError::Corrupt(concat2("negative ", field)))
    }
}

/// Deployment-scoped provenance for one reconciled filesystem source.
#[derive(Debug, Eq, PartialEq)]
pub struct SourceRegistration {
    source_id: String,
    producer_id: ProducerId,
    identity_schema_name: String,
    identity_schema_version: u32,
}

/// The parts of a source registration.
#[verifier::ext_equal]
pub struct RegistrationView {
    pub source_id: Seq<char>,
    pub producer_id: ProducerId,
    pub identity_schema_name: Seq<char>,
    pub identity_schema_version: u32,
}

impl RegistrationView {
    pub open spec fn valid(self) -> bool {
        &&& text::is_label(self.source_id)
        &&& text::is_label(self.identity_schema_name)
        &&& self.identity_schema_version != 0
    }

    /// Why an invalid registration is refused.
    pub open spec fn refusal(self) -> CatalogErrorView {
        CatalogErrorView::InvalidSourceRegistration(
            if !text::is_label(self.source_id) {
                "source_id"@ + " must be non-empty, trimmed, and free of NUL bytes"@
            } else if !text::is_label(self.identity_schema_name) {
                "identity_schema_name"@ + " must be non-empty, trimmed, and free of NUL bytes"@
            } else {
                "identity_schema_version must be non-zero"@
            },
        )
    }
}

impl View for SourceRegistration {
    type V = RegistrationView;

    closed spec fn view(&self) -> RegistrationView {
        RegistrationView {
            source_id: self.source_id@,
            producer_id: self.producer_id,
            identity_schema_name: self.identity_schema_name@,
            identity_schema_version: self.identity_schema_version,
        }
    }
}

/// `value` where it is a label.
pub fn valid_source_field(field: &str, value: &str) -> (result: Result<String, CatalogError>)
    ensures
        match result {
            Ok(text) => text::is_label(value@) && text@ == value@,
            Err(error) => !text::is_label(value@) && error@
                == CatalogErrorView::InvalidSourceRegistration(
                field@ + " must be non-empty, trimmed, and free of NUL bytes"@,
            ),
        },
{
    if label_ok(value) {
        Ok(value.to_owned())
    } else {
        Err(
            CatalogError::InvalidSourceRegistration(
                concat2(field, " must be non-empty, trimmed, and free of NUL bytes"),
            ),
        )
    }
}

impl SourceRegistration {
    /// A constructed registration is valid.
    #[verifier::type_invariant]
    pub open spec fn inv(self) -> bool {
        self@.valid()
    }

    pub fn new(
        source_id: &str,
        producer_id: ProducerId,
        identity_schema_name: &str,
        identity_schema_version: u32,
    ) -> (result: Result<SourceRegistration, CatalogError>)
        ensures
            ({
                let parts = RegistrationView {
                    source_id: source_id@,
                    producer_id,
                    identity_schema_name: identity_schema_name@,
                    identity_schema_version,
                };
                match result {
                    Ok(registration) => parts.valid() && registration@ == parts,
                    Err(error) => !parts.valid() && error@ == parts.refusal(),
                }
            }),
    {
        let source_id = valid_source_field("source_id", source_id)?;
        let identity_schema_name = valid_source_field("identity_schema_name", identity_schema_name)?;
        if identity_schema_version == 0 {
            return Err(
                CatalogError::InvalidSourceRegistration(
                    "identity_schema_version must be non-zero".to_owned(),
                ),
            );
        }
        Ok(
            SourceRegistration {
                source_id,
                producer_id,
                identity_schema_name,
                identity_schema_version,
            },
        )
    }

    pub fn source_id(&self) -> (result: &str)
        ensures
            result@ == self@.source_id,
    {
        self.source_id.as_str()
    }

    pub fn producer_id(&self) -> (result: ProducerId)
        ensures
            result == self@.producer_id,
    {
        self.producer_id
    }

    pub fn identity_schema_name(&self) -> (result: &str)
        ensures
            result@ == self@.identity_schema_name,
    {
        self.identity_schema_name.as_str()
    }

    pub fn identity_schema_version(&self) -> (result: u32)
        ensures
            result == self@.identity_schema_version,
    {
        self.identity_schema_version
    }
}

/// One generation of one source's reconciliation.
#[derive(Debug, Eq, PartialEq)]
pub struct SourceScan {
    source_id: String,
    generation: u64,
}

/// The parts of a source scan.
#[verifier::ext_equal]
pub struct ScanView {
    pub source_id: Seq<char>,
    pub generation: u64,
}

impl View for SourceScan {
    type V = ScanView;

    closed spec fn view(&self) -> ScanView {
        ScanView { source_id: self.source_id@, generation: self.generation }
    }
}

impl SourceScan {
    /// The scan of this generation of this source.
    pub(crate) fn of(source_id: &str, generation: u64) -> (result: SourceScan)
        ensures
            result@ == (ScanView { source_id: source_id@, generation }),
    {
        SourceScan { source_id: source_id.to_owned(), generation }
    }

    pub fn source_id(&self) -> (result: &str)
        ensures
            result@ == self@.source_id,
    {
        self.source_id.as_str()
    }

    pub fn generation(&self) -> (result: u64)
        ensures
            result == self@.generation,
    {
        self.generation
    }
}

/// Durable, source-local position for the byte-budgeted integrity scrub. The position is a
/// logical location, never an absolute source path.
#[derive(Debug, Eq, PartialEq)]
pub struct SourceScrubProgress {
    pub source_id: String,
    pub next_after: Option<LogicalLocation>,
    pub completed_cycles: u64,
    pub last_completed_at_ms: Option<i64>,
}

/// The parts of a scrub position.
#[verifier::ext_equal]
pub struct ScrubView {
    pub source_id: Seq<char>,
    pub next_after: Option<LocationView>,
    pub completed_cycles: u64,
    pub last_completed_at_ms: Option<i64>,
}

impl View for SourceScrubProgress {
    type V = ScrubView;

    open spec fn view(&self) -> ScrubView {
        ScrubView {
            source_id: self.source_id@,
            next_after: text::view_option(self.next_after),
            completed_cycles: self.completed_cycles,
            last_completed_at_ms: self.last_completed_at_ms,
        }
    }
}

/// Cheap metadata used only to decide whether a full hash is required.
#[derive(Clone, Copy, Debug, Eq, PartialEq, Structural)]
pub struct SourceFingerprint {
    pub byte_length: u64,
    pub modified_seconds: i64,
    pub modified_nanoseconds: u32,
    pub device: Option<u64>,
    pub inode: Option<u64>,
}

impl SourceFingerprint {
    /// The fingerprint of a regular file with this metadata; no other file has one.
    pub fn from_metadata(
        is_file: bool,
        byte_length: u64,
        modified: (i64, u32),
        device: Option<u64>,
        inode: Option<u64>,
    ) -> (result: Option<SourceFingerprint>)
        ensures
            result == (if is_file {
                Some(
                    SourceFingerprint {
                        byte_length,
                        modified_seconds: modified.0,
                        modified_nanoseconds: modified.1,
                        device,
                        inode,
                    },
                )
            } else {
                None
            }),
    {
        if !is_file {
            return None;
        }
        Some(
            SourceFingerprint {
                byte_length,
                modified_seconds: modified.0,
                modified_nanoseconds: modified.1,
                device,
                inode,
            },
        )
    }

    pub fn byte_length(&self) -> (result: u64)
        ensures
            result == self.byte_length,
    {
        self.byte_length
    }
}

/// How often a fingerprint was seen unchanged, and whether its bytes must still be hashed.
#[derive(Clone, Copy, Debug, Eq, PartialEq, Structural)]
pub struct SourceObservation {
    pub unchanged_observations: u32,
    pub needs_hash: bool,
}

/// How long a record must be missing before it counts as deleted.
#[derive(Clone, Copy, Debug, Eq, PartialEq, Structural)]
pub struct TombstoneGrace {
    pub min_complete_scans: u32,
    pub min_elapsed_ms: u64,
}

impl TombstoneGrace {
    pub fn new(min_complete_scans: u32, min_elapsed_ms: u64) -> (result: Result<
        TombstoneGrace,
        CatalogError,
    >)
        ensures
            match result {
                Ok(grace) => min_complete_scans != 0 && grace == (TombstoneGrace {
                    min_complete_scans,
                    min_elapsed_ms,
                }),
                Err(error) => min_complete_scans == 0 && error@
                    == CatalogErrorView::InvalidTombstoneGrace(
                    "min_complete_scans must be at least one"@,
                ),
            },
    {
        if min_complete_scans == 0 {
            return Err(
                CatalogError::InvalidTombstoneGrace(
                    "min_complete_scans must be at least one".to_owned(),
                ),
            );
        }
        Ok(TombstoneGrace { min_complete_scans, min_elapsed_ms })
    }

    pub fn min_complete_scans(self) -> (result: u32)
        ensures
            result == self.min_complete_scans,
    {
        self.min_complete_scans
    }

    pub fn min_elapsed_ms(self) -> (result: u64)
        ensures
            result == self.min_elapsed_ms,
    {
        self.min_elapsed_ms
    }
}

impl Default for TombstoneGrace {
    fn default() -> (result: TombstoneGrace)
        ensures
            result == (TombstoneGrace { min_complete_scans: 2, min_elapsed_ms: 0 }),
    {
        TombstoneGrace { min_complete_scans: 2, min_elapsed_ms: 0 }
    }
}

} // verus!
