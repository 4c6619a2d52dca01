//! The evidence consumer: one provenance manifest for each delivered event.
use vstd::prelude::*;

use crate::delivery::{DeliveryLease, LeaseView};
use crate::domain;
use crate::domain::{
    CanonicalRevision, DeliveryOutcome, DomainError, DomainErrorView, RevisionView,
};
use crate::ident;
use crate::json;
use crate::json::{JsonObject, JsonView};
use crate::paths;
use crate::paths::is_absolute;
use crate::receipts;
use crate::receipts::{
    check_payload, find_receipt_place, make_location, make_payload, make_sequence, same_bytes,
    write_json_line, PayloadFault,
};
use crate::text;
use crate::text::concat2;

verus! {

/// Why the consumer refused a delivery.
#[derive(Debug, Eq, PartialEq)]
pub enum EvidenceConsumerError {
    /// Reading or writing failed, with the reason.
    Io(String),
    Domain(DomainError),
    InvalidConfiguration(String),
    ProvenanceMismatch,
    MissingPayload,
    UnexpectedPayload,
    /// A manifest of other provenance stands at this path.
    IdempotencyConflict(String),
}

/// An `EvidenceConsumerError` with its texts as character sequences.
pub enum EvidenceErrorView {
    Io(Seq<char>),
    Domain(DomainErrorView),
    InvalidConfiguration(Seq<char>),
    ProvenanceMismatch,
    MissingPayload,
    UnexpectedPayload,
    IdempotencyConflict(Seq<char>),
}

impl View for EvidenceConsumerError {
    type V = EvidenceErrorView;

    open spec fn view(&self) -> EvidenceErrorView {
        match *self {
            EvidenceConsumerError::Io(m) => EvidenceErrorView::Io(m@),
            EvidenceConsumerError::Domain(error) => EvidenceErrorView::Domain(error@),
            EvidenceConsumerError::InvalidConfiguration(m) => {
                EvidenceErrorView::InvalidConfiguration(m@)
            },
            EvidenceConsumerError::ProvenanceMismatch => EvidenceErrorView::ProvenanceMismatch,
            EvidenceConsumerError::MissingPayload => EvidenceErrorView::MissingPayload,
            EvidenceConsumerError::UnexpectedPayload => EvidenceErrorView::UnexpectedPayload,
            EvidenceConsumerError::IdempotencyConflict(path) => {
                EvidenceErrorView::IdempotencyConflict(path@)
            },
        }
    }
}

/// The message of a consumer error.
pub open spec fn evidence_message(error: EvidenceErrorView) -> Seq<char> {
    match error {
        EvidenceErrorView::Io(m) => m,
        EvidenceErrorView::Domain(inner) => domain::domain_message(inner),
        EvidenceErrorView::InvalidConfiguration(m) => {
            "invalid evidence-consumer configuration: "@ + m
        },
        EvidenceErrorView::ProvenanceMismatch => {
            "leased payload does not match its declared revision"@
        },
        EvidenceErrorView::MissingPayload => "byte-bearing delivery has no materialized payload"@,
        EvidenceErrorView::UnexpectedPayload => {
            "metadata-only delivery unexpectedly has a payload"@
        },
        EvidenceErrorView::IdempotencyConflict(path) => {
            "existing evidence manifest conflicts with the delivery provenance: "@ + path
        },
    }
}

impl EvidenceConsumerError {
    /// The message for an operator.
    pub fn message(&self) -> (result: String)
        ensures
            result@ == evidence_message(self@),
    {
        match self {
            EvidenceConsumerError::Io(m) => m.clone(),
            EvidenceConsumerError::Domain(inner) => inner.message(),
            EvidenceConsumerError::InvalidConfiguration(m) => {
                concat2("invalid evidence-consumer configuration: ", m.as_str())
            },
            EvidenceConsumerError::ProvenanceMismatch => {
                "leased payload does not match its declared revision".to_owned()
            },
            EvidenceConsumerError::MissingPayload => {
                "byte-bearing delivery has no materialized payload".to_owned()
            },
            EvidenceConsumerError::UnexpectedPayload => {
                "metadata-only delivery unexpectedly has a payload".to_owned()
            },
            EvidenceConsumerError::IdempotencyConflict(path) => {
                concat2(
                    "existing evidence manifest conflicts with the delivery provenance: ",
                    path.as_str(),
                )
            },
        }
    }
}

/// The error for a payload fault.
pub open spec fn fault_error(fault: PayloadFault) -> EvidenceErrorView {
    match fault {
        PayloadFault::ProvenanceMismatch => EvidenceErrorView::ProvenanceMismatch,
        PayloadFault::MissingPayload => EvidenceErrorView::MissingPayload,
        PayloadFault::UnexpectedPayload => EvidenceErrorView::UnexpectedPayload,
    }
}

/// The manifest of a delivery.
pub open spec fn manifest_json(lease: LeaseView, payload: Option<RevisionView>) -> JsonView {
    JsonView::Object(
        receipts::blank().insert("format_version"@, JsonView::Unsigned(1)).insert(
            "subscription_id"@,
            JsonView::Text(ident::uuid_text(lease.subscription_id.id)),
        ).insert("event_id"@, JsonView::Text(ident::uuid_text(lease.event_id.id))).insert(
            "record_id"@,
            JsonView::Text(ident::uuid_text(lease.record_id.id)),
        ).insert("record_version"@, JsonView::Unsigned(lease.record_version)).insert(
            "event_kind"@,
            JsonView::Text(domain::event_kind_name(lease.kind)),
        ).insert("event_sequence"@, receipts::sequence_json(lease.event_sequence)).insert(
            "location"@,
            receipts::location_json(lease.location),
        ).insert("payload"@, receipts::payload_json(payload)),
    )
}

/// The bytes of a delivery's manifest.
pub fn manifest_bytes(delivery: &DeliveryLease, payload: &Option<CanonicalRevision>) -> (result:
    Vec<u8>)
    ensures
        result@ == receipts::json_line(manifest_json(delivery@, text::view_option(*payload))),
        json::reads_as(result@, manifest_json(delivery@, text::view_option(*payload))),
{
    let manifest = JsonObject::new().with_number("format_version", 1).with_text(
        "subscription_id",
        delivery.subscription_id.to_text().as_str(),
    ).with_text("event_id", delivery.event_id.as_uuid().to_text().as_str()).with_text(
        "record_id",
        delivery.record_id.as_uuid().to_text().as_str(),
    ).with_number("record_version", delivery.record_version).with_text(
        "event_kind",
        delivery.kind.as_db(),
    ).with("event_sequence", make_sequence(delivery.event_sequence)).with(
        "location",
        make_location(&delivery.location),
    ).with("payload", make_payload(payload)).finish();
    proof {
        lemma_manifest_shallow(delivery@, text::view_option(*payload));
    }
    write_json_line(&manifest)
}

proof fn lemma_manifest_shallow(lease: LeaseView, payload: Option<RevisionView>)
    ensures
        json::shallow(manifest_json(lease, payload), 127),
{
    reveal_with_fuel(json::shallow, 2);
    receipts::lemma_parts_shallow(lease.location, payload, lease.event_sequence);
}

/// A consumer that keeps one manifest file for each event below its root.
#[derive(Debug)]
pub struct FilesystemEvidenceConsumer {
    root: String,
}

impl View for FilesystemEvidenceConsumer {
    type V = Seq<char>;

    closed spec fn view(&self) -> Seq<char> {
        self.root@
    }
}

/// What is wrong with an evidence root.
pub open spec fn root_refusal(root: Seq<char>, real_directory: bool) -> Option<EvidenceErrorView> {
    if !paths::absolute(root) {
        Some(EvidenceErrorView::InvalidConfiguration("evidence root must be absolute"@))
    } else if !real_directory {
        Some(EvidenceErrorView::InvalidConfiguration("evidence root must be a real directory"@))
    } else {
        None
    }
}

/// What applying a delivery comes to: the manifest to write, or nothing where it stands already.
pub open spec fn applied(
    root: Seq<char>,
    lease: LeaseView,
    payload: Option<RevisionView>,
    existing: Option<Seq<u8>>,
) -> Result<Option<Seq<u8>>, EvidenceErrorView> {
    match receipts::payload_fault(lease.revision, payload) {
        Some(fault) => Err(fault_error(fault)),
        None => {
            let manifest = receipts::json_line(manifest_json(lease, payload));
            match existing {
                Some(found) => if found == manifest {
                    Ok(None)
                } else {
                    Err(
                        EvidenceErrorView::IdempotencyConflict(receipts::receipt_place(root, lease)),
                    )
                },
                None => Ok(Some(manifest)),
            }
        },
    }
}

impl FilesystemEvidenceConsumer {
    /// A consumer below an absolute root, which must be a directory and no symbolic link.
    pub fn new(root: &str, real_directory: bool) -> (result: Result<
        FilesystemEvidenceConsumer,
        EvidenceConsumerError,
    >)
        ensures
            match result {
                Ok(consumer) => root_refusal(root@, real_directory) is None && consumer@ == root@,
                Err(error) => root_refusal(root@, real_directory) == Some(error@),
            },
    {
        if !is_absolute(root) {
            return Err(
                EvidenceConsumerError::InvalidConfiguration(
                    "evidence root must be absolute".to_owned(),
                ),
            );
        }
        if !real_directory {
            return Err(
                EvidenceConsumerError::InvalidConfiguration(
                    "evidence root must be a real directory".to_owned(),
                ),
            );
        }
        Ok(FilesystemEvidenceConsumer { root: root.to_owned() })
    }

    /// The place of a delivery's manifest.
    pub fn manifest_path(&self, delivery: &DeliveryLease) -> (result: String)
        ensures
            result@ == receipts::receipt_place(self@, delivery@),
    {
        find_receipt_place(self.root.as_str(), delivery)
    }

    /// Decides what a delivery with this payload comes to, given the bytes that stand at its
    /// manifest's place: the bytes to write there, or nothing where they stand already.
    pub fn apply(
        &self,
        delivery: &DeliveryLease,
        payload: &Option<CanonicalRevision>,
        existing: Option<&[u8]>,
    ) -> (result: Result<Option<Vec<u8>>, EvidenceConsumerError>)
        ensures
            (match result {
                Ok(manifest) => Ok(text::view_option(manifest)),
                Err(error) => Err(error@),
            }) == applied(
                self@,
                delivery@,
                text::view_option(*payload),
                text::view_option(existing),
            ),
    {
        match check_payload(delivery, payload) {
            Some(PayloadFault::ProvenanceMismatch) => {
                return Err(EvidenceConsumerError::ProvenanceMismatch);
            },
            Some(PayloadFault::MissingPayload) => {
                return Err(EvidenceConsumerError::MissingPayload);
            },
            Some(PayloadFault::UnexpectedPayload) => {
                return Err(EvidenceConsumerError::UnexpectedPayload);
            },
            None => {},
        }
        let manifest = manifest_bytes(delivery, payload);
        match existing {
            Some(found) => if same_bytes(found, manifest.as_slice()) {
                Ok(None)
            } else {
                Err(EvidenceConsumerError::IdempotencyConflict(self.manifest_path(delivery)))
            },
            None => Ok(Some(manifest)),
        }
    }

    /// The outcome of an applied delivery.
    pub fn outcome() -> (result: DeliveryOutcome)
        ensures
            result == DeliveryOutcome::Acknowledged,
    {
        DeliveryOutcome::Acknowledged
    }
}

/// Applying a delivery again after its manifest was written writes nothing and succeeds.
pub proof fn law_second_application_is_silent(
    root: Seq<char>,
    lease: LeaseView,
    payload: Option<RevisionView>,
    written: Seq<u8>,
)
    requires
        applied(root, lease, payload, None) == Ok::<Option<Seq<u8>>, EvidenceErrorView>(
            Some(written),
        ),
    ensures
        applied(root, lease, payload, Some(written)) == Ok::<Option<Seq<u8>>, EvidenceErrorView>(
            None,
        ),
{
}

/// Bytes that read as the manifests of two deliveries come from deliveries of one subscription,
/// event, record, version, kind, sequence, location and payload.
pub proof fn law_manifest_identifies_its_delivery(
    bytes: Seq<u8>,
    a: LeaseView,
    b: LeaseView,
    payload_a: Option<RevisionView>,
    payload_b: Option<RevisionView>,
)
    requires
        json::reads_as(bytes, manifest_json(a, payload_a)),
        json::reads_as(bytes, manifest_json(b, payload_b)),
    ensures
        a.subscription_id == b.subscription_id,
        a.event_id == b.event_id,
        a.record_id == b.record_id,
        a.record_version == b.record_version,
        a.kind == b.kind,
        a.event_sequence == b.event_sequence,
        a.location == b.location,
        payload_a == payload_b,
{
    let x = manifest_json(a, payload_a);
    let y = manifest_json(b, payload_b);
    lemma_member_names();
    assert(json::get(x, "subscription_id"@) == json::get(y, "subscription_id"@));
    assert(json::get(x, "event_id"@) == json::get(y, "event_id"@));
    assert(json::get(x, "record_id"@) == json::get(y, "record_id"@));
    assert(json::get(x, "record_version"@) == json::get(y, "record_version"@));
    assert(json::get(x, "event_kind"@) == json::get(y, "event_kind"@));
    assert(json::get(x, "event_sequence"@) == json::get(y, "event_sequence"@));
    assert(json::get(x, "location"@) == json::get(y, "location"@));
    ident::law_uuid_text_injective(a.subscription_id.id, b.subscription_id.id);
    ident::law_uuid_text_injective(a.event_id.id, b.event_id.id);
    ident::law_uuid_text_injective(a.record_id.id, b.record_id.id);
    domain::law_event_kind_name_injective(a.kind, b.kind);
    let l = receipts::location_json(a.location);
    let m = receipts::location_json(b.location);
    reveal_strlit("root_role");
    reveal_strlit("source_relative_path");
    assert("root_role"@.len() == 9 && "source_relative_path"@.len() == 20);
    if a.location is Some && b.location is Some {
        assert(json::get(l, "root_role"@) == json::get(m, "root_role"@));
        assert(json::get(l, "source_relative_path"@) == json::get(m, "source_relative_path"@));
        assert(a.location->Some_0 =~= b.location->Some_0);
    }
    let p = receipts::payload_json(payload_a);
    let q = receipts::payload_json(payload_b);
    assert(json::get(x, "payload"@) == json::get(y, "payload"@));
    reveal_strlit("algorithm");
    reveal_strlit("byte_length");
    reveal_strlit("digest");
    assert("algorithm"@.len() == 9 && "byte_length"@.len() == 11 && "digest"@.len() == 6);
    if payload_a is Some && payload_b is Some {
        assert(json::get(p, "byte_length"@) == json::get(q, "byte_length"@));
        assert(json::get(p, "digest"@) == json::get(q, "digest"@));
        text::law_hex_injective(payload_a->Some_0.digest, payload_b->Some_0.digest);
    }
}

proof fn lemma_member_names()
    ensures
        "format_version"@.len() == 14,
        "subscription_id"@.len() == 15,
        "event_id"@.len() == 8,
        "record_id"@.len() == 9,
        "record_version"@.len() == 14,
        "format_version"@[0] == 'f',
        "record_version"@[0] == 'r',
        "event_kind"@.len() == 10,
        "event_sequence"@.len() == 14,
        "event_sequence"@[0] == 'e',
        "location"@.len() == 8,
        "location"@[0] == 'l',
        "event_id"@[0] == 'e',
        "payload"@.len() == 7,
{
    reveal_strlit("format_version");
    reveal_strlit("subscription_id");
    reveal_strlit("event_id");
    reveal_strlit("record_id");
    reveal_strlit("record_version");
    reveal_strlit("event_kind");
    reveal_strlit("event_sequence");
    reveal_strlit("location");
    reveal_strlit("payload");
}

} // verus!
