//! What the messages for an operator tell.
use crate::catalog;
use crate::catalog::CatalogErrorView;
use crate::controller;
use crate::controller::ControllerErrorView;
use crate::delivery;
use crate::delivery::DeliveryErrorView;
use crate::domain;
use crate::domain::{DomainErrorView, IdentityView};
use crate::evidence;
use crate::evidence::EvidenceErrorView;
use crate::hindsight;
use crate::hindsight::HindsightErrorView;
use crate::ident;
use crate::mempalace;
use crate::mempalace::MempalaceErrorView;
use crate::payload;
use crate::payload::PayloadErrorView;
use crate::source_fs;
use crate::source_fs::SourceErrorView;
use crate::text;
use vstd::prelude::*;

verus! {

/// Whether a message ends with this text.
pub open spec fn ends_with(message: Seq<char>, reason: Seq<char>) -> bool {
    reason.len() <= message.len() && message.skip(message.len() - reason.len()) == reason
}

proof fn lemma_ends(opening: Seq<char>, reason: Seq<char>)
    ensures
        ends_with(opening + reason, reason),
{
    assert((opening + reason).skip(opening.len() as int) =~= reason);
}

proof fn lemma_occurs(before: Seq<char>, part: Seq<char>, after: Seq<char>)
    ensures
        text::occurs(before + part + after, part),
{
    let whole = before + part + after;
    assert(whole.subrange(before.len() as int, (before.len() + part.len()) as int) =~= part);
    assert(text::occurs_at(whole, part, before.len() as int));
}

/// The message of a fault in the catalog ends with its reason.
pub proof fn law_catalog_messages_tell_the_reason(reason: Seq<char>)
    ensures
        ends_with(domain::domain_message(DomainErrorView::InvalidLocation(reason)), reason),
        ends_with(domain::domain_message(DomainErrorView::CorruptState(reason)), reason),
        ends_with(catalog::catalog_message(CatalogErrorView::Corrupt(reason)), reason),
        ends_with(
            catalog::catalog_message(CatalogErrorView::InvalidSourceRegistration(reason)),
            reason,
        ),
        ends_with(
            catalog::catalog_message(CatalogErrorView::SourceRegistrationConflict(reason)),
            reason,
        ),
        ends_with(catalog::catalog_message(CatalogErrorView::InvalidTombstoneGrace(reason)), reason),
        ends_with(catalog::catalog_message(CatalogErrorView::SourceScanConflict(reason)), reason),
        ends_with(
            catalog::catalog_message(CatalogErrorView::InvalidBackupDestination(reason)),
            reason,
        ),
        ends_with(
            catalog::catalog_message(CatalogErrorView::BackupDestinationExists(reason)),
            reason,
        ),
        ends_with(catalog::catalog_message(CatalogErrorView::BackupManifestInvalid(reason)), reason),
        ends_with(
            delivery::delivery_message(DeliveryErrorView::InvalidSubscription(reason)),
            reason,
        ),
        ends_with(delivery::delivery_message(DeliveryErrorView::Corrupt(reason)), reason),
{
    lemma_ends("invalid source-relative path: "@, reason);
    lemma_ends("catalog contains an unknown state value: "@, reason);
    lemma_ends("catalog data is corrupt: "@, reason);
    lemma_ends("invalid source registration: "@, reason);
    lemma_ends("source registration conflict: "@, reason);
    lemma_ends("invalid tombstone grace: "@, reason);
    lemma_ends("source scan is stale or not active: "@, reason);
    lemma_ends("invalid backup destination: "@, reason);
    lemma_ends("backup destination already exists: "@, reason);
    lemma_ends("backup manifest is invalid: "@, reason);
    lemma_ends("invalid subscription: "@, reason);
    lemma_ends("delivery state is corrupt: "@, reason);
}

/// The message of a fault in a consumer ends with its reason, or with the place of the conflict.
pub proof fn law_consumer_messages_tell_the_reason(reason: Seq<char>)
    ensures
        evidence::evidence_message(EvidenceErrorView::Io(reason)) == reason,
        ends_with(
            evidence::evidence_message(EvidenceErrorView::InvalidConfiguration(reason)),
            reason,
        ),
        ends_with(
            evidence::evidence_message(EvidenceErrorView::IdempotencyConflict(reason)),
            reason,
        ),
        hindsight::hindsight_message(HindsightErrorView::Io(reason)) == reason,
        ends_with(
            hindsight::hindsight_message(HindsightErrorView::InvalidConfiguration(reason)),
            reason,
        ),
        ends_with(
            hindsight::hindsight_message(HindsightErrorView::InvalidTranscript(reason)),
            reason,
        ),
        ends_with(hindsight::hindsight_message(HindsightErrorView::InvalidReceipt(reason)), reason),
        ends_with(
            hindsight::hindsight_message(HindsightErrorView::IdempotencyConflict(reason)),
            reason,
        ),
        ends_with(hindsight::hindsight_message(HindsightErrorView::Runner(reason)), reason),
        mempalace::mempalace_message(MempalaceErrorView::Io(reason)) == reason,
        ends_with(
            mempalace::mempalace_message(MempalaceErrorView::InvalidConfiguration(reason)),
            reason,
        ),
        ends_with(
            mempalace::mempalace_message(MempalaceErrorView::IdempotencyConflict(reason)),
            reason,
        ),
        ends_with(mempalace::mempalace_message(MempalaceErrorView::Runner(reason)), reason),
{
    lemma_ends("invalid evidence-consumer configuration: "@, reason);
    lemma_ends("existing evidence manifest conflicts with the delivery provenance: "@, reason);
    lemma_ends("invalid Hindsight consumer configuration: "@, reason);
    lemma_ends("Codex transcript cannot be safely rendered for Hindsight: "@, reason);
    lemma_ends("existing Hindsight receipt is malformed: "@, reason);
    lemma_ends("existing Hindsight receipt conflicts with delivery provenance: "@, reason);
    lemma_ends("Hindsight runner failed: "@, reason);
    lemma_ends("invalid MemPalace consumer configuration: "@, reason);
    lemma_ends("existing MemPalace receipt conflicts with delivery provenance: "@, reason);
    lemma_ends("MemPalace runner failed: "@, reason);
}

/// The message of a fault in a source, a payload or a run ends with its reason, and names the root or the file that
/// it is about.
pub proof fn law_run_messages_tell_the_reason(reason: Seq<char>, name: Seq<char>)
    ensures
        ends_with(source_fs::source_message(SourceErrorView::InvalidConfiguration(reason)), reason),
        ends_with(source_fs::source_message(SourceErrorView::Read(reason)), reason),
        ({
            let unavailable = source_fs::source_message(
                SourceErrorView::RootUnavailable { root_role: name, source: reason },
            );
            let unhealthy = source_fs::source_message(
                SourceErrorView::UnhealthyRoot { root_role: name, reason },
            );
            let invalid = source_fs::source_message(
                SourceErrorView::InvalidProviderRecord { relative_path: name, reason },
            );
            &&& ends_with(unavailable, reason)
            &&& text::occurs(unavailable, text::debug_form(name))
            &&& ends_with(unhealthy, reason)
            &&& text::occurs(unhealthy, text::debug_form(name))
            &&& ends_with(invalid, reason)
            &&& text::occurs(invalid, text::debug_form(name))
        }),
        ends_with(payload::payload_message(PayloadErrorView::InvalidConfiguration(reason)), reason),
        ends_with(payload::payload_message(PayloadErrorView::Read(reason)), reason),
        ends_with(payload::payload_message(PayloadErrorView::CacheIo(reason)), reason),
        ends_with(payload::payload_message(PayloadErrorView::StaleRevision { reason }), reason),
        ends_with(
            controller::controller_message(ControllerErrorView::InvalidConfiguration(reason)),
            reason,
        ),
        ends_with(
            controller::controller_message(
                ControllerErrorView::UnknownRootRole { root_role: name },
            ),
            text::debug_form(name),
        ),
{
    lemma_ends("invalid source configuration: "@, reason);
    lemma_ends("failed to inspect source filesystem: "@, reason);
    let told = text::debug_form(name);
    lemma_ends("source root "@ + told + " is unavailable: "@, reason);
    lemma_ends("source root "@ + told + " is unhealthy: "@, reason);
    lemma_ends("invalid provider record "@ + told + ": "@, reason);
    lemma_occurs("source root "@, told, " is unavailable: "@ + reason);
    assert("source root "@ + told + (" is unavailable: "@ + reason) =~= "source root "@ + told
        + " is unavailable: "@ + reason);
    lemma_occurs("source root "@, told, " is unhealthy: "@ + reason);
    assert("source root "@ + told + (" is unhealthy: "@ + reason) =~= "source root "@ + told
        + " is unhealthy: "@ + reason);
    lemma_occurs("invalid provider record "@, told, ": "@ + reason);
    assert("invalid provider record "@ + told + (": "@ + reason) =~= "invalid provider record "@
        + told + ": "@ + reason);
    lemma_ends("invalid external payload configuration: "@, reason);
    lemma_ends("failed to read external payload: "@, reason);
    lemma_ends("failed to manage materialization cache: "@, reason);
    lemma_ends("external payload no longer represents the expected revision: "@, reason);
    lemma_ends("invalid controller configuration: "@, reason);
    lemma_ends("delivery refers to an unconfigured root role "@, told);
}

/// A fault that was handed on keeps its message.
pub proof fn law_faults_keep_their_message(
    in_domain: DomainErrorView,
    in_catalog: CatalogErrorView,
    in_delivery: DeliveryErrorView,
    in_source: SourceErrorView,
    in_payload: PayloadErrorView,
)
    ensures
        catalog::catalog_message(CatalogErrorView::Domain(in_domain)) == domain::domain_message(
            in_domain,
        ),
        delivery::delivery_message(DeliveryErrorView::Catalog(in_catalog))
            == catalog::catalog_message(in_catalog),
        source_fs::source_message(SourceErrorView::Domain(in_domain)) == domain::domain_message(
            in_domain,
        ),
        source_fs::source_message(SourceErrorView::Catalog(in_catalog))
            == catalog::catalog_message(in_catalog),
        payload::payload_message(PayloadErrorView::Domain(in_domain)) == domain::domain_message(
            in_domain,
        ),
        payload::payload_message(PayloadErrorView::Source(in_source)) == source_fs::source_message(
            in_source,
        ),
        controller::controller_message(ControllerErrorView::Delivery(in_delivery))
            == delivery::delivery_message(in_delivery),
        controller::controller_message(ControllerErrorView::Payload(in_payload))
            == payload::payload_message(in_payload),
        evidence::evidence_message(EvidenceErrorView::Domain(in_domain)) == domain::domain_message(
            in_domain,
        ),
        hindsight::hindsight_message(HindsightErrorView::Domain(in_domain))
            == domain::domain_message(in_domain),
        mempalace::mempalace_message(MempalaceErrorView::Domain(in_domain))
            == domain::domain_message(in_domain),
{
}

/// A duplicate is told with its identity: the message names the source, and the identity names its producer.
pub proof fn law_duplicate_message_names_the_record(source_id: Seq<char>, identity: IdentityView)
    ensures
        ({
            let message = source_fs::source_message(
                SourceErrorView::DuplicateLiveIdentity { source_id, identity },
            );
            &&& ends_with(message, source_fs::identity_text(identity))
            &&& text::occurs(message, text::debug_form(source_id))
            &&& text::occurs(
                source_fs::identity_text(identity),
                ident::uuid_text(identity.producer_id.id),
            )
        }),
{
    let told = text::debug_form(source_id);
    let who = source_fs::identity_text(identity);
    lemma_ends("source "@ + told + " has duplicate live identity "@, who);
    lemma_occurs("source "@, told, " has duplicate live identity "@ + who);
    assert("source "@ + told + (" has duplicate live identity "@ + who) =~= "source "@ + told
        + " has duplicate live identity "@ + who);
    let id = ident::uuid_text(identity.producer_id.id);
    let opening = "RecordIdentity { producer_id: ProducerId("@;
    assert(who.subrange(opening.len() as int, (opening.len() + id.len()) as int) =~= id);
    assert(text::occurs_at(who, id, opening.len() as int));
}

} // verus!
