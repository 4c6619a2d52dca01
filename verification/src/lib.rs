//! Durable record catalog, delivery scheduling and adapter rules for agent archives.

pub mod admin;
pub mod backup;
pub mod catalog;
pub mod cli;
pub mod clock;
pub mod configuring;
pub mod consistency;
pub mod controller;
pub mod delivery;
pub mod domain;
pub mod effects;
pub mod evidence;
pub mod guarding;
pub mod hash;
pub mod hindsight;
pub mod history;
pub mod ident;
pub mod json;
pub mod laws;
pub mod leases;
pub mod ledger;
pub mod measurement;
pub mod mempalace;
pub mod naming;
pub mod observing;
pub mod oversight;
pub mod paths;
pub mod payload;
pub mod provenance;
pub mod queueing;
pub mod receipts;
pub mod reconciling;
pub mod records;
pub mod rendering;
pub mod reporting;
pub mod rows;
pub mod scan;
pub mod scrub;
pub mod source_fs;
pub mod sources;
pub mod subscriptions;
pub mod telling;
pub mod text;
pub mod transcript;
pub mod wording;

pub use admin::{AdminError, CatalogStatus, SourceStatus, SubscriptionStatus, catalog_status};
pub use backup::{BackupArtifact, BackupMetadata, StoredCatalog};
pub use catalog::{
    CatalogError, SourceFingerprint, SourceObservation, SourceRegistration, SourceScan,
    SourceScrubProgress, TombstoneGrace,
};
pub use controller::{
    ControlledDeliveryAttempt, ControlledDeliveryOutcome, ControlledRunLimits, ControlledRunReport,
    ControllerError, DeliveryRoots, PathConsumer,
};
pub use delivery::{
    DeliveryCounts, DeliveryError, DeliveryLease, DeliveryState, LeaseToken, RetryPolicy,
    Subscription, SubscriptionConfig, SubscriptionId, SubscriptionMode,
};
pub use domain::{
    ArchiveEvent, CanonicalRevision, DeliveryOutcome, DomainError, EventKind, LogicalLocation,
    ProducerId, RecordIdentity, RecordState,
};
pub use ledger::Catalog;
pub use payload::{
    CurrentExternalRevision, MaterializationCache, MaterializationLimits, MaterializedLease,
    PayloadError, VerifiedReader,
};
pub use records::CurrentRecord;
pub use scan::{Blake3RevisionHasher, ReconcileReport, Reconciler};
pub use source_fs::{
    CodexRolloutLayout, DeletionMode, IdentitySchema, LayoutPlugin, RootGuard, SourceConfig,
    SourceError, SourceRoot, StabilityPolicy,
};
