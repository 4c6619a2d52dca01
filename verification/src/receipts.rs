//! What the consumers share: the check of a payload, and the place and parts of a receipt.
use vstd::prelude::*;
use vstd::utf8::*;

use crate::delivery::{DeliveryLease, LeaseView};
use crate::domain::{
    CanonicalRevision, DeliveryOutcome, LocationView, LogicalLocation, RevisionView,
};
use crate::ident;
use crate::json;
use crate::json::{Json, JsonObject, JsonView};
use crate::paths;
use crate::paths::join_path;
use crate::text;
use crate::text::{concat2, concat3};

verus! {

/// What is wrong with the payload of a delivery.
#[derive(Clone, Copy, Debug, Eq, PartialEq, Structural)]
pub enum PayloadFault {
    ProvenanceMismatch,
    MissingPayload,
    UnexpectedPayload,
}

/// A delivery with a revision needs exactly the bytes of it, and one without needs none.
pub open spec fn payload_fault(
    expected: Option<RevisionView>,
    actual: Option<RevisionView>,
) -> Option<PayloadFault> {
    match (expected, actual) {
        (Some(declared), Some(found)) => if declared == found {
            None
        } else {
            Some(PayloadFault::ProvenanceMismatch)
        },
        (Some(_), None) => Some(PayloadFault::MissingPayload),
        (None, Some(_)) => Some(PayloadFault::UnexpectedPayload),
        (None, None) => None,
    }
}

/// Whether the payload at hand, by its revision, is the one that the delivery declares.
pub fn check_payload(delivery: &DeliveryLease, actual: &Option<CanonicalRevision>) -> (result: Option<
    PayloadFault,
>)
    ensures
        result == payload_fault(delivery@.revision, text::view_option(*actual)),
{
    match (&delivery.revision, actual) {
        (Some(declared), Some(found)) => if declared.same(found) {
            None
        } else {
            Some(PayloadFault::ProvenanceMismatch)
        },
        (Some(_), None) => Some(PayloadFault::MissingPayload),
        (None, Some(_)) => Some(PayloadFault::UnexpectedPayload),
        (None, None) => None,
    }
}

/// The place of a delivery's receipt: below its root, by subscription and event.
pub open spec fn receipt_place(root: Seq<char>, lease: LeaseView) -> Seq<char> {
    paths::joined(
        paths::joined(root, ident::uuid_text(lease.subscription_id.id)),
        ident::uuid_text(lease.event_id.id) + ".json"@,
    )
}

/// The place of a delivery's receipt.
pub fn find_receipt_place(root: &str, delivery: &DeliveryLease) -> (result: String)
    ensures
        result@ == receipt_place(root@, delivery@),
{
    let directory = join_path(root, delivery.subscription_id.to_text().as_str());
    let name = concat2(delivery.event_id.as_uuid().to_text().as_str(), ".json");
    join_path(directory.as_str(), name.as_str())
}

/// The identity of a record towards consumers.
pub open spec fn source_id(lease: LeaseView) -> Seq<char> {
    "agent-bookkeeper://record/"@ + ident::uuid_text(lease.record_id.id)
}

/// The identity of a record towards consumers.
pub fn record_source_id(delivery: &DeliveryLease) -> (result: String)
    ensures
        result@ == source_id(delivery@),
{
    concat2("agent-bookkeeper://record/", delivery.record_id.as_uuid().to_text().as_str())
}

/// The key under which a consumer's effect happens once.
pub open spec fn idempotency_key(lease: LeaseView) -> Seq<char> {
    ident::uuid_text(lease.subscription_id.id) + ":"@ + ident::uuid_text(lease.event_id.id)
}

/// The key under which a consumer's effect happens once.
pub fn event_idempotency_key(delivery: &DeliveryLease) -> (result: String)
    ensures
        result@ == idempotency_key(delivery@),
{
    concat3(
        delivery.subscription_id.to_text().as_str(),
        ":",
        delivery.event_id.as_uuid().to_text().as_str(),
    )
}

/// An indexing consumer cannot remove a record, so a delivery without bytes is ignored.
pub open spec fn indexing_outcome(lease: LeaseView) -> DeliveryOutcome {
    if lease.revision is Some {
        DeliveryOutcome::Acknowledged
    } else {
        DeliveryOutcome::IgnoredByPolicy
    }
}

/// The outcome of a delivery to an indexing consumer.
pub fn receipt_outcome(delivery: &DeliveryLease) -> (result: DeliveryOutcome)
    ensures
        result == indexing_outcome(delivery@),
{
    if delivery.revision.is_some() {
        DeliveryOutcome::Acknowledged
    } else {
        DeliveryOutcome::IgnoredByPolicy
    }
}

/// An object with no members.
pub open spec fn blank() -> Map<Seq<char>, JsonView> {
    Map::empty()
}

/// A location as JSON.
pub open spec fn location_json(location: Option<LocationView>) -> JsonView {
    match location {
        Some(location) => JsonView::Object(
            blank().insert("root_role"@, JsonView::Text(location.root_role)).insert(
                "source_relative_path"@,
                JsonView::Text(location.source_relative_path),
            ),
        ),
        None => JsonView::Null,
    }
}

/// A revision as JSON.
pub open spec fn payload_json(revision: Option<RevisionView>) -> JsonView {
    match revision {
        Some(revision) => JsonView::Object(
            blank().insert("algorithm"@, JsonView::Text("blake3-256"@)).insert(
                "byte_length"@,
                JsonView::Unsigned(revision.byte_length),
            ).insert("digest"@, JsonView::Text(text::hex(revision.digest))),
        ),
        None => JsonView::Null,
    }
}

/// A sequence number as JSON.
pub open spec fn sequence_json(sequence: Option<u64>) -> JsonView {
    match sequence {
        Some(sequence) => JsonView::Unsigned(sequence),
        None => JsonView::Null,
    }
}

/// A location as JSON.
pub fn make_location(location: &Option<LogicalLocation>) -> (result: Json)
    ensures
        result@ == location_json(text::view_option(*location)),
{
    match location {
        Some(location) => JsonObject::new().with_text("root_role", location.root_role()).with_text(
            "source_relative_path",
            location.source_relative_path(),
        ).finish(),
        None => Json::Null,
    }
}

/// A revision as JSON.
pub fn make_payload(revision: &Option<CanonicalRevision>) -> (result: Json)
    ensures
        result@ == payload_json(text::view_option(*revision)),
{
    match revision {
        Some(revision) => JsonObject::new().with_text(
            "algorithm",
            CanonicalRevision::algorithm(),
        ).with_number("byte_length", revision.byte_length()).with_text(
            "digest",
            revision.digest_hex().as_str(),
        ).finish(),
        None => Json::Null,
    }
}

/// A sequence number as JSON.
pub fn make_sequence(sequence: Option<u64>) -> (result: Json)
    ensures
        result@ == sequence_json(sequence),
{
    match sequence {
        Some(sequence) => Json::Unsigned(sequence),
        None => Json::Null,
    }
}

/// The line that a value is written as: its compact JSON and a line feed.
pub open spec fn json_line(value: JsonView) -> Seq<u8> {
    encode_utf8(json::json_text(value)).push(10u8)
}

/// Writes a value as one line.
pub fn write_json_line(value: &Json) -> (result: Vec<u8>)
    ensures
        result@ == json_line(value@),
        json::shallow(value@, 127) ==> json::reads_as(result@, value@),
{
    let content = value.to_text();
    text::line_bytes(content.as_str())
}

/// Whether two byte strings are equal.
pub fn same_bytes(a: &[u8], b: &[u8]) -> (result: bool)
    ensures
        result == (a@ == b@),
{
    if a.len() != b.len() {
        return false;
    }
    let mut i: usize = 0;
    while i < a.len()
        invariant
            0 <= i <= a@.len(),
            a@.len() == b@.len(),
            forall|j: int| 0 <= j < i ==> a@[j] == b@[j],
        decreases a@.len() - i,
    {
        if a[i] != b[i] {
            return false;
        }
        i += 1;
    }
    assert(a@ =~= b@);
    true
}

/// Locations and revisions nest one level deep and hold no real number.
pub proof fn lemma_parts_shallow(
    location: Option<LocationView>,
    revision: Option<RevisionView>,
    sequence: Option<u64>,
)
    ensures
        json::shallow(location_json(location), 126),
        json::shallow(payload_json(revision), 126),
        json::shallow(sequence_json(sequence), 126),
{
    reveal_with_fuel(json::shallow, 2);
}

} // verus!
