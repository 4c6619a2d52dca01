//! What the consumers tell of a delivery, and when they act on it.
use crate::delivery::LeaseView;
use crate::domain;
use crate::domain::{DeliveryOutcome, RevisionView};
use crate::evidence;
use crate::evidence::EvidenceErrorView;
use crate::hindsight;
use crate::hindsight::{
    ConsumerView, HindsightErrorView, HindsightObservationScopes, HindsightPlanView,
    HindsightRenderProfile, HindsightStepView, RetainView,
};
use crate::ident;
use crate::json;
use crate::json::JsonView;
use crate::mempalace;
use crate::mempalace::{IngestView, MempalaceErrorView, MempalacePlanView};
use crate::receipts;
use crate::receipts::PayloadFault;
use crate::text;
use crate::transcript;
use vstd::prelude::*;

verus! {

/// A consumer takes a payload exactly where it is the one that the delivery declares: none where it
/// declares none, and else bytes of that very length and digest.
pub proof fn law_payload_is_the_declared_one(
    expected: Option<RevisionView>,
    actual: Option<RevisionView>,
)
    ensures
        receipts::payload_fault(expected, actual) is None <==> expected == actual,
        expected is Some && actual is None ==> receipts::payload_fault(expected, actual) == Some(
            PayloadFault::MissingPayload,
        ),
        expected is None && actual is Some ==> receipts::payload_fault(expected, actual) == Some(
            PayloadFault::UnexpectedPayload,
        ),
        expected is Some && actual is Some && expected != actual ==> receipts::payload_fault(
            expected,
            actual,
        ) == Some(PayloadFault::ProvenanceMismatch),
{
}

/// A delivery with bytes is acknowledged once it is indexed, one without is ignored by policy.
pub proof fn law_indexed_bytes_are_acknowledged(lease: LeaseView)
    ensures
        lease.revision is Some ==> receipts::indexing_outcome(lease)
            == DeliveryOutcome::Acknowledged,
        lease.revision is None ==> receipts::indexing_outcome(lease)
            == DeliveryOutcome::IgnoredByPolicy,
{
}

proof fn lemma_uuid_len(id: ident::Uuid)
    ensures
        ident::uuid_text(id).len() == 36,
{
    ident::law_uuid_text_reads_back(id);
}

/// Two deliveries have one idempotency key exactly where they are of one event for one subscription,
/// and one identity towards consumers exactly where they are of one record.
pub proof fn law_keys_tell_deliveries_apart(a: LeaseView, b: LeaseView)
    ensures
        receipts::idempotency_key(a) == receipts::idempotency_key(b) <==> a.subscription_id
            == b.subscription_id && a.event_id == b.event_id,
        receipts::source_id(a) == receipts::source_id(b) <==> a.record_id == b.record_id,
{
    lemma_uuid_len(a.subscription_id.id);
    lemma_uuid_len(b.subscription_id.id);
    lemma_uuid_len(a.event_id.id);
    lemma_uuid_len(b.event_id.id);
    lemma_uuid_len(a.record_id.id);
    lemma_uuid_len(b.record_id.id);
    let x = receipts::idempotency_key(a);
    let y = receipts::idempotency_key(b);
    reveal_strlit(":");
    if x == y {
        assert(x.take(36) =~= ident::uuid_text(a.subscription_id.id));
        assert(y.take(36) =~= ident::uuid_text(b.subscription_id.id));
        ident::law_uuid_text_injective(a.subscription_id.id, b.subscription_id.id);
        assert(x.skip(37) =~= ident::uuid_text(a.event_id.id));
        assert(y.skip(37) =~= ident::uuid_text(b.event_id.id));
        ident::law_uuid_text_injective(a.event_id.id, b.event_id.id);
    }
    let p = "agent-bookkeeper://record/"@;
    if receipts::source_id(a) == receipts::source_id(b) {
        assert(receipts::source_id(a).skip(p.len() as int) =~= ident::uuid_text(a.record_id.id));
        assert(receipts::source_id(b).skip(p.len() as int) =~= ident::uuid_text(b.record_id.id));
        ident::law_uuid_text_injective(a.record_id.id, b.record_id.id);
    }
}

/// The retain call for a transcript sends the transcript's text to the consumer's bank, under the
/// record's own document, at the time of its last message, with the scopes asked for.
pub proof fn law_retain_call_sends_the_transcript(
    bank_id: Seq<char>,
    scopes: Option<HindsightObservationScopes>,
    profile: HindsightRenderProfile,
    lease: LeaseView,
    revision: RevisionView,
    rendered: transcript::TranscriptView,
)
    ensures
        ({
            let call = hindsight::request_of(bank_id, scopes, profile, lease, revision, rendered);
            &&& call.bank_id == bank_id
            &&& call.content == rendered.content
            &&& call.timestamp == rendered.last_timestamp
            &&& call.observation_scopes == scopes
            &&& call.document_id == "agent-bookkeeper://record/"@ + ident::uuid_text(
                lease.record_id.id,
            )
            &&& call.source_id == call.document_id
            &&& call.tags.len() == 2
            &&& call.tags[0] == "agent:codex"@
            &&& rendered.session_cwd is None ==> call.tags[1] == "workspace:"@ + "unknown"@
            &&& rendered.session_cwd matches Some(cwd) ==> text::occurs(call.context, cwd)
        }),
{
    if let Some(cwd) = rendered.session_cwd {
        let context = hindsight::request_context(profile, rendered.session_cwd);
        let at = context.len() - cwd.len();
        assert(context.subrange(at, at + cwd.len()) =~= cwd);
        assert(text::occurs_at(context, cwd, at));
    }
}

proof fn lemma_metadata_names()
    ensures
        "source_id"@.len() == 9,
        "record_id"@.len() == 9,
        "root_role"@.len() == 9,
        "source_id"@ != "record_id"@,
        "source_id"@ != "root_role"@,
        "record_id"@ != "root_role"@,
        "record_version"@.len() == 14,
        "event_sequence"@.len() == 14,
        "record_version"@ != "event_sequence"@,
        "event_id"@.len() == 8,
        "revision_algorithm"@.len() == 18,
        "revision_digest"@.len() == 15,
        "revision_byte_length"@.len() == 20,
        "source_relative_path"@.len() == 20,
        "revision_byte_length"@ != "source_relative_path"@,
        "renderer_profile"@.len() == 16,
        "renderer_version"@.len() == 16,
        "renderer_profile"@ != "renderer_version"@,
        "render_source_messages"@.len() == 22,
        "render_included_messages"@.len() == 24,
        "render_filtered_synthetic_messages"@.len() == 34,
        "render_stripped_memory_echoes"@.len() == 29,
        "render_truncated_tool_results"@.len() == 29,
        "render_stripped_memory_echoes"@ != "render_truncated_tool_results"@,
        "render_tool_calls"@.len() == 17,
        "render_tool_results"@.len() == 19,
        "session_id"@.len() == 10,
        "session_cwd"@.len() == 11,
{
    reveal_strlit("source_id");
    reveal_strlit("record_id");
    reveal_strlit("root_role");
    reveal_strlit("record_version");
    reveal_strlit("event_sequence");
    reveal_strlit("event_id");
    reveal_strlit("revision_algorithm");
    reveal_strlit("revision_digest");
    reveal_strlit("revision_byte_length");
    reveal_strlit("source_relative_path");
    reveal_strlit("renderer_profile");
    reveal_strlit("renderer_version");
    reveal_strlit("render_source_messages");
    reveal_strlit("render_included_messages");
    reveal_strlit("render_filtered_synthetic_messages");
    reveal_strlit("render_stripped_memory_echoes");
    reveal_strlit("render_truncated_tool_results");
    reveal_strlit("render_tool_calls");
    reveal_strlit("render_tool_results");
    reveal_strlit("session_id");
    reveal_strlit("session_cwd");
    assert("source_id"@[0] == 's');
    assert("record_id"@[0] == 'r');
    assert("root_role"@[0] == 'r');
    assert("record_id"@[1] == 'e');
    assert("root_role"@[1] == 'o');
    assert("record_version"@[0] == 'r');
    assert("event_sequence"@[0] == 'e');
    assert("revision_byte_length"@[0] == 'r');
    assert("source_relative_path"@[0] == 's');
    assert("renderer_profile"@[9] == 'p');
    assert("renderer_version"@[9] == 'v');
    assert("render_stripped_memory_echoes"@[7] == 's');
    assert("render_truncated_tool_results"@[7] == 't');
}

/// A retain call tells where its text comes from: record, version, event, place, and the digest and
/// length of the bytes that were rendered; how it was rendered; and what was counted on the way.
pub proof fn law_retain_call_tells_its_provenance(
    lease: LeaseView,
    revision: RevisionView,
    profile: HindsightRenderProfile,
    rendered: transcript::TranscriptView,
)
    ensures
        ({
            let told = hindsight::request_metadata(lease, revision, profile, rendered);
            &&& told["source_id"@] == receipts::source_id(lease)
            &&& told["record_id"@] == ident::uuid_text(lease.record_id.id)
            &&& told["record_version"@] == text::decimal(lease.record_version as nat)
            &&& told["event_id"@] == ident::uuid_text(lease.event_id.id)
            &&& told["revision_algorithm"@] == "blake3-256"@
            &&& told["revision_digest"@] == text::hex(revision.digest)
            &&& told["revision_byte_length"@] == text::decimal(revision.byte_length as nat)
            &&& told["renderer_profile"@] == hindsight::profile_name(profile)
            &&& told["renderer_version"@] == "2"@
            &&& told["render_source_messages"@] == text::decimal(rendered.stats.source)
            &&& told["render_included_messages"@] == text::decimal(rendered.stats.included)
            &&& told["render_filtered_synthetic_messages"@] == text::decimal(
                rendered.stats.synthetic,
            )
            &&& told["render_stripped_memory_echoes"@] == text::decimal(rendered.stats.echoes)
            &&& told["render_tool_calls"@] == text::decimal(rendered.stats.calls)
            &&& told["render_tool_results"@] == text::decimal(rendered.stats.results)
            &&& told["render_truncated_tool_results"@] == text::decimal(rendered.stats.cut)
            &&& told.dom().contains("event_sequence"@) == lease.event_sequence is Some
            &&& lease.event_sequence matches Some(sequence) ==> told["event_sequence"@]
                == text::decimal(sequence as nat)
            &&& told.dom().contains("root_role"@) == lease.location is Some
            &&& told.dom().contains("source_relative_path"@) == lease.location is Some
            &&& lease.location matches Some(location) ==> told["root_role"@] == location.root_role
                && told["source_relative_path"@] == location.source_relative_path
            &&& told.dom().contains("session_id"@) == rendered.session_id is Some
            &&& rendered.session_id matches Some(id) ==> told["session_id"@] == id
            &&& told.dom().contains("session_cwd"@) == rendered.session_cwd is Some
            &&& rendered.session_cwd matches Some(cwd) ==> told["session_cwd"@] == cwd
        }),
{
    lemma_metadata_names();
}

proof fn lemma_retain_names()
    ensures
        "content"@.len() == 7,
        "context"@.len() == 7,
        "content"@ != "context"@,
        "document_id"@.len() == 11,
        "update_mode"@.len() == 11,
        "document_id"@ != "update_mode"@,
        "metadata"@.len() == 8,
        "tags"@.len() == 4,
        "timestamp"@.len() == 9,
        "observation_scopes"@.len() == 18,
        "async"@.len() == 5,
        "items"@.len() == 5,
        "async"@ != "items"@,
{
    reveal_strlit("content");
    reveal_strlit("context");
    reveal_strlit("document_id");
    reveal_strlit("update_mode");
    reveal_strlit("metadata");
    reveal_strlit("tags");
    reveal_strlit("timestamp");
    reveal_strlit("observation_scopes");
    reveal_strlit("async");
    reveal_strlit("items");
    assert("content"@[5] == 'n');
    assert("context"@[5] == 'x');
    assert("document_id"@[0] == 'd');
    assert("update_mode"@[0] == 'u');
    assert("async"@[0] == 'a');
    assert("items"@[0] == 'i');
}

/// The body of a retain call is one item that holds the call, to be retained at once and in the place
/// of what the document held before.
pub proof fn law_retain_body_holds_the_call(call: RetainView)
    ensures
        hindsight::retain_json(call) matches JsonView::Object(body) && {
            &&& body["async"@] == JsonView::Bool(false)
            &&& body["items"@] matches JsonView::Array(items)
            &&& items.len() == 1
            &&& items[0] matches JsonView::Object(item)
            &&& item["content"@] == JsonView::Text(call.content)
            &&& item["context"@] == JsonView::Text(call.context)
            &&& item["document_id"@] == JsonView::Text(call.document_id)
            &&& item["update_mode"@] == JsonView::Text("replace"@)
            &&& call.timestamp is None ==> item["timestamp"@] == JsonView::Null
            &&& call.timestamp matches Some(time) ==> item["timestamp"@] == JsonView::Text(time)
            &&& item["tags"@] matches JsonView::Array(tags)
            &&& tags.len() == call.tags.len()
            &&& forall|i: int|
                0 <= i < tags.len() ==> #[trigger] tags[i] == JsonView::Text(call.tags[i])
            &&& item["metadata"@] matches JsonView::Object(told)
            &&& told.dom() == call.metadata.dom()
            &&& forall|name: Seq<char>|
                told.dom().contains(name) ==> #[trigger] told[name] == JsonView::Text(
                    call.metadata[name],
                )
            &&& item.dom().contains("observation_scopes"@) == call.observation_scopes is Some
            &&& call.observation_scopes matches Some(scopes) ==> item["observation_scopes"@]
                == JsonView::Text(hindsight::scopes_name(scopes))
        },
{
    lemma_retain_names();
    let body = hindsight::retain_json(call)->Object_0;
    let item = body["items"@]->Array_0[0]->Object_0;
    let told = item["metadata"@]->Object_0;
    assert(told == call.metadata.map_values(|t: Seq<char>| JsonView::Text(t)));
    assert(told.dom() =~= call.metadata.dom());
    let tags = item["tags"@]->Array_0;
    assert(tags == call.tags.map_values(|t: Seq<char>| JsonView::Text(t)));
}

/// The memory service refused a call exactly where it said so or what it said is no JSON; else the call
/// succeeded, with the operation that it named.
pub proof fn law_retain_reply_is_what_was_said(
    status: nat,
    body: Seq<char>,
    said: Map<Seq<char>, JsonView>,
)
    ensures
        said.dom().contains("success"@) && said["success"@] == JsonView::Bool(false)
            <==> hindsight::retain_reply(status, body, Ok(JsonView::Object(said))) is Err,
        hindsight::retain_reply(status, body, Ok(JsonView::Object(said))) matches Ok(operation)
            ==> operation == (if said.dom().contains("operation_id"@) {
            match said["operation_id"@] {
                JsonView::Text(id) => Some(id),
                _ => None,
            }
        } else {
            None
        }),
        forall|reason: Seq<char>| #[trigger]
            hindsight::retain_reply(status, body, Err(reason)) is Err,
{
}

proof fn lemma_receipt_names()
    ensures
        "format_version"@.len() == 14,
        "event_sequence"@.len() == 14,
        "record_version"@.len() == 14,
        "format_version"@ != "event_sequence"@,
        "format_version"@ != "record_version"@,
        "event_sequence"@ != "record_version"@,
        "consumer"@.len() == 8,
        "event_id"@.len() == 8,
        "location"@.len() == 8,
        "consumer"@ != "event_id"@,
        "consumer"@ != "location"@,
        "event_id"@ != "location"@,
        "subscription_id"@.len() == 15,
        "event_idempotency_key"@.len() == 21,
        "record_id"@.len() == 9,
        "source_id"@.len() == 9,
        "record_id"@ != "source_id"@,
        "event_kind"@.len() == 10,
        "document_id"@.len() == 11,
        "bank_id"@.len() == 7,
        "payload"@.len() == 7,
        "bank_id"@ != "payload"@,
        "renderer_profile"@.len() == 16,
        "observation_scopes"@.len() == 18,
        "operation_id"@.len() == 12,
{
    reveal_strlit("format_version");
    reveal_strlit("event_sequence");
    reveal_strlit("record_version");
    reveal_strlit("consumer");
    reveal_strlit("event_id");
    reveal_strlit("location");
    reveal_strlit("subscription_id");
    reveal_strlit("event_idempotency_key");
    reveal_strlit("record_id");
    reveal_strlit("source_id");
    reveal_strlit("event_kind");
    reveal_strlit("document_id");
    reveal_strlit("bank_id");
    reveal_strlit("payload");
    reveal_strlit("renderer_profile");
    reveal_strlit("observation_scopes");
    reveal_strlit("operation_id");
    assert("format_version"@[0] == 'f');
    assert("event_sequence"@[0] == 'e');
    assert("record_version"@[0] == 'r');
    assert("consumer"@[0] == 'c');
    assert("event_id"@[0] == 'e');
    assert("location"@[0] == 'l');
    assert("record_id"@[0] == 'r');
    assert("source_id"@[0] == 's');
    assert("bank_id"@[0] == 'b');
    assert("payload"@[0] == 'p');
}

/// Whether members tell a delivery: subscription, event, record, version, kind, number, place and
/// bytes.
pub open spec fn tells_delivery(
    told: Map<Seq<char>, JsonView>,
    lease: LeaseView,
    payload: Option<RevisionView>,
) -> bool {
    &&& told["format_version"@] == JsonView::Unsigned(1)
    &&& told["subscription_id"@] == JsonView::Text(ident::uuid_text(lease.subscription_id.id))
    &&& told["event_id"@] == JsonView::Text(ident::uuid_text(lease.event_id.id))
    &&& told["record_id"@] == JsonView::Text(ident::uuid_text(lease.record_id.id))
    &&& told["record_version"@] == JsonView::Unsigned(lease.record_version)
    &&& told["event_kind"@] == JsonView::Text(domain::event_kind_name(lease.kind))
    &&& lease.event_sequence is None ==> told["event_sequence"@] == JsonView::Null
    &&& lease.event_sequence matches Some(sequence) ==> told["event_sequence"@]
        == JsonView::Unsigned(sequence)
    &&& lease.location is None ==> told["location"@] == JsonView::Null
    &&& lease.location matches Some(location) ==> {
        &&& told["location"@] matches JsonView::Object(place)
        &&& place["root_role"@] == JsonView::Text(location.root_role)
        &&& place["source_relative_path"@] == JsonView::Text(location.source_relative_path)
    }
    &&& payload is None ==> told["payload"@] == JsonView::Null
    &&& payload matches Some(revision) ==> {
        &&& told["payload"@] matches JsonView::Object(bytes)
        &&& bytes["algorithm"@] == JsonView::Text("blake3-256"@)
        &&& bytes["byte_length"@] == JsonView::Unsigned(revision.byte_length)
        &&& bytes["digest"@] == JsonView::Text(text::hex(revision.digest))
    }
}

proof fn lemma_nested_names()
    ensures
        "root_role"@ != "source_relative_path"@,
        "algorithm"@ != "byte_length"@,
        "algorithm"@ != "digest"@,
        "byte_length"@ != "digest"@,
{
    reveal_strlit("root_role");
    reveal_strlit("source_relative_path");
    reveal_strlit("algorithm");
    reveal_strlit("byte_length");
    reveal_strlit("digest");
    assert("root_role"@.len() == 9);
    assert("source_relative_path"@.len() == 20);
    assert("algorithm"@.len() == 9);
    assert("byte_length"@.len() == 11);
    assert("digest"@.len() == 6);
}

/// Every receipt and manifest tells its delivery: whose it is, what event, record and version it is of,
/// where the record lies, and which bytes were delivered. A receipt also names its consumer, the key
/// under which its effect happens once, and what was sent where.
pub proof fn law_receipts_tell_their_delivery(
    consumer: ConsumerView,
    lease: LeaseView,
    payload: Option<RevisionView>,
    operation_id: Option<Seq<char>>,
)
    ensures
        ({
            let told = hindsight::receipt_members(consumer, lease, payload, operation_id);
            &&& tells_delivery(told, lease, payload)
            &&& told["consumer"@] == JsonView::Text("hindsight"@)
            &&& told["event_idempotency_key"@] == JsonView::Text(receipts::idempotency_key(lease))
            &&& told["source_id"@] == JsonView::Text(receipts::source_id(lease))
            &&& told["document_id"@] == JsonView::Text(receipts::source_id(lease))
            &&& told["bank_id"@] == JsonView::Text(consumer.bank_id)
            &&& told["renderer_profile"@] == JsonView::Text(
                hindsight::profile_name(consumer.profile),
            )
            &&& told.dom().contains("observation_scopes"@) == consumer.scopes is Some
            &&& consumer.scopes matches Some(scopes) ==> told["observation_scopes"@]
                == JsonView::Text(hindsight::scopes_name(scopes))
            &&& operation_id is None ==> told["operation_id"@] == JsonView::Null
            &&& operation_id matches Some(id) ==> told["operation_id"@] == JsonView::Text(id)
        }),
        mempalace::receipt_json(lease, payload) matches JsonView::Object(told) && {
            &&& tells_delivery(told, lease, payload)
            &&& told["consumer"@] == JsonView::Text("mempalace"@)
            &&& told["event_idempotency_key"@] == JsonView::Text(receipts::idempotency_key(lease))
            &&& told["source_id"@] == JsonView::Text(receipts::source_id(lease))
        },
        evidence::manifest_json(lease, payload) matches JsonView::Object(told) && tells_delivery(
            told,
            lease,
            payload,
        ),
{
    lemma_receipt_names();
    lemma_nested_names();
}

/// The memory consumer, as a whole. A payload that is not the declared one is refused. Bytes that are
/// new are rendered and retained, under the record's own document; a delivery without bytes is only
/// recorded. What stands at the receipt's place decides the rest: a receipt that differs in anything
/// but the operation is a conflict, and nothing is retained again where one stands.
pub proof fn law_memory_consumer_retains_new_bytes_once(
    consumer: ConsumerView,
    lease: LeaseView,
    payload: Option<Seq<u8>>,
    existing: Option<Seq<u8>>,
    name: Seq<char>,
)
    ensures
        ({
            let revision = match payload {
                Some(bytes) => Some(domain::revision_of(bytes)),
                None => None,
            };
            let plan = hindsight::planned(consumer, lease, payload, existing);
            &&& lease.revision != revision ==> plan is Err
            &&& lease.revision == revision && existing is None && payload is None ==> plan
                == Ok::<HindsightPlanView, HindsightErrorView>(HindsightPlanView::Record)
            &&& payload matches Some(bytes) ==> lease.revision == revision && existing is None
                ==> match transcript::transcript_of_bytes(bytes, consumer.profile) {
                Err(error) => plan == Err::<HindsightPlanView, HindsightErrorView>(error),
                Ok(rendered) => plan matches Ok(HindsightPlanView::Retain { request })
                    && request.content == rendered.content && request.bank_id == consumer.bank_id
                    && request.document_id == receipts::source_id(lease)
                    && request.observation_scopes == consumer.scopes && request.metadata
                    == hindsight::request_metadata(
                    lease,
                    domain::revision_of(bytes),
                    consumer.profile,
                    rendered,
                ),
            }
            &&& existing is Some ==> !(plan is Ok && plan->Ok_0 is Retain)
            &&& existing matches Some(found) ==> json::json_of_bytes(found) matches Ok(
                JsonView::Object(members),
            ) ==> {
                let told = hindsight::receipt_members(consumer, lease, revision, None);
                name != "operation_id"@ && lease.revision == revision && (members.dom().contains(
                    name,
                ) != told.dom().contains(name) || (told.dom().contains(name) && members[name]
                    != told[name])) ==> plan is Err
            }
        }),
{
    let revision = hindsight::payload_revision(payload);
    if let Some(found) = existing {
        if let Ok(JsonView::Object(members)) = json::json_of_bytes(found) {
            let told = hindsight::receipt_members(consumer, lease, revision, None);
            let a = members.remove("operation_id"@);
            let b = told.remove("operation_id"@);
            if a == b && name != "operation_id"@ {
                assert(a.dom().contains(name) == members.dom().contains(name));
                assert(b.dom().contains(name) == told.dom().contains(name));
                if told.dom().contains(name) {
                    assert(a[name] == members[name]);
                    assert(b[name] == told[name]);
                }
            }
        }
    }
}

/// Once the memory service has answered, a receipt is written exactly where the call succeeded or there
/// was nothing to call for; it names the operation.
pub proof fn law_receipt_follows_the_reply(
    consumer: ConsumerView,
    lease: LeaseView,
    request: RetainView,
    reply: Result<Option<Seq<char>>, Seq<char>>,
)
    ensures
        ({
            let step = hindsight::settled(
                consumer,
                lease,
                HindsightPlanView::Retain { request },
                reply,
            );
            match reply {
                Ok(operation) => step matches Ok(HindsightStepView::Write { receipt }) && receipt
                    == receipts::json_line(
                    JsonView::Object(
                        hindsight::receipt_members(consumer, lease, lease.revision, operation),
                    ),
                ),
                Err(_) => step is Err,
            }
        }),
        hindsight::settled(consumer, lease, HindsightPlanView::Record, reply) matches Ok(
            HindsightStepView::Write { receipt },
        ) && receipt == receipts::json_line(
            JsonView::Object(
                hindsight::receipt_members(consumer, lease, lease.revision, None),
            ),
        ),
        hindsight::settled(consumer, lease, HindsightPlanView::Done, reply) == Ok::<
            HindsightStepView,
            HindsightErrorView,
        >(HindsightStepView::Stands),
{
}

/// The indexing consumer, as a whole. A payload that is not the declared one is refused. Bytes that are
/// new are handed to the index with the delivery's whole provenance; a delivery without bytes is only
/// recorded; where the delivery's own receipt stands, nothing is done; and another receipt in its place
/// is a conflict.
pub proof fn law_index_consumer_ingests_new_bytes_once(
    root: Seq<char>,
    lease: LeaseView,
    payload: Option<RevisionView>,
    input_path: Seq<char>,
    existing: Option<Seq<u8>>,
)
    ensures
        ({
            let plan = mempalace::planned(root, lease, payload, input_path, existing);
            let own = receipts::json_line(mempalace::receipt_json(lease, payload));
            &&& lease.revision != payload ==> plan is Err
            &&& lease.revision == payload && existing == Some(own) ==> plan == Ok::<
                MempalacePlanView,
                MempalaceErrorView,
            >(MempalacePlanView::Done)
            &&& existing is Some && existing != Some(own) ==> plan is Err
            &&& lease.revision == payload && existing is None && payload is None ==> (plan
                matches Ok(MempalacePlanView::Record { receipt }) && receipt == own)
            &&& payload matches Some(revision) ==> lease.revision == payload && existing is None
                ==> (plan matches Ok(MempalacePlanView::Ingest { request, receipt }) && {
                &&& receipt == own
                &&& request.input_path == input_path
                &&& request.source_id == receipts::source_id(lease)
                &&& request.subscription_id == lease.subscription_id.id
                &&& request.event_id == lease.event_id.id
                &&& request.event_sequence == lease.event_sequence
                &&& request.record_id == lease.record_id.id
                &&& request.record_version == lease.record_version
                &&& request.event_kind == lease.kind
                &&& request.location == lease.location
                &&& request.revision == revision
            })
        }),
{
}

/// An ingestion is one command on the palace, of the input file, under the record's identity, in the
/// configured wing and for the configured agent.
pub proof fn law_ingestion_command_names_its_input(
    config: mempalace::CliView,
    request: IngestView,
)
    ensures
        ({
            let line = mempalace::command_line(config, request);
            &&& line.len() == 10
            &&& line[0] == "--palace"@ && line[1] == config.palace_path
            &&& line[2] == "codex-stream"@ && line[3] == request.input_path
            &&& line[4] == "--source-id"@ && line[5] == request.source_id
            &&& line[6] == "--wing"@ && line[7] == config.wing
            &&& line[8] == "--agent"@ && line[9] == config.agent
        }),
        mempalace::command_outcome(true, Seq::empty(), Seq::empty()) is Ok,
        forall|status: Seq<char>, stderr: Seq<char>| #[trigger]
            mempalace::command_outcome(false, status, stderr) is Err,
        forall|status: Seq<char>, stderr: Seq<char>| #[trigger]
            mempalace::command_outcome(true, status, stderr) is Ok,
{
}

/// The evidence consumer writes the manifest of every delivery whose payload is the declared one, once:
/// its own manifest is left alone, and anything else in its place is a conflict.
pub proof fn law_evidence_is_written_once(
    root: Seq<char>,
    lease: LeaseView,
    payload: Option<RevisionView>,
    existing: Option<Seq<u8>>,
)
    ensures
        ({
            let result = evidence::applied(root, lease, payload, existing);
            let own = receipts::json_line(evidence::manifest_json(lease, payload));
            &&& lease.revision != payload ==> result is Err
            &&& lease.revision == payload && existing is None ==> result == Ok::<
                Option<Seq<u8>>,
                EvidenceErrorView,
            >(Some(own))
            &&& lease.revision == payload && existing == Some(own) ==> result == Ok::<
                Option<Seq<u8>>,
                EvidenceErrorView,
            >(None)
            &&& existing is Some && existing != Some(own) ==> result is Err
        }),
{
}

/// A line of JSON ends with the only line feed that is added.
pub proof fn law_json_line_ends_once(value: JsonView)
    ensures
        receipts::json_line(value).len() > 0,
        receipts::json_line(value).last() == 10,
        receipts::json_line(value).drop_last() == vstd::utf8::encode_utf8(json::json_text(value)),
{
    assert(receipts::json_line(value).drop_last() =~= vstd::utf8::encode_utf8(
        json::json_text(value),
    ));
}

proof fn lemma_strip_start(whole: Seq<char>, c: char) -> (at: int)
    ensures
        0 <= at <= whole.len(),
        text::strip_start(whole, c) == whole.skip(at),
        forall|i: int| 0 <= i < at ==> #[trigger] whole[i] == c,
        at < whole.len() ==> whole[at] != c,
    decreases whole.len(),
{
    if whole.len() > 0 && whole[0] == c {
        let rest = whole.subrange(1, whole.len() as int);
        let at = lemma_strip_start(rest, c);
        assert(whole.skip(at + 1) =~= rest.skip(at));
        assert forall|i: int| 0 <= i < at + 1 implies #[trigger] whole[i] == c by {
            if i > 0 {
                assert(whole[i] == rest[i - 1]);
            }
        }
        if at + 1 < whole.len() {
            assert(whole[at + 1] == rest[at]);
        }
        at + 1
    } else {
        assert(whole.skip(0) =~= whole);
        0
    }
}

proof fn lemma_strip_end(whole: Seq<char>, c: char)
    ensures
        text::strip_end(whole, c).len() <= whole.len(),
        text::strip_end(whole, c) == whole.take(text::strip_end(whole, c).len() as int),
        text::strip_end(whole, c).len() > 0 ==> text::strip_end(whole, c).last() != c,
        forall|i: int|
            text::strip_end(whole, c).len() <= i < whole.len() ==> #[trigger] whole[i] == c,
    decreases whole.len(),
{
    if whole.len() > 0 && whole.last() == c {
        let front = whole.drop_last();
        lemma_strip_end(front, c);
        let kept = text::strip_end(whole, c);
        assert(kept =~= whole.take(kept.len() as int));
        assert forall|i: int| kept.len() <= i < whole.len() implies #[trigger] whole[i] == c by {
            if i < front.len() {
                assert(whole[i] == front[i]);
            }
        }
    } else {
        assert(whole.take(whole.len() as int) =~= whole);
    }
}

/// The tag of a workspace holds lower-case letters, digits, dashes and underscores alone, does not begin
/// with a dash, and is no longer than eighty characters; a name of that kind that does not end with a
/// dash either is its own tag.
pub proof fn law_workspace_tag_is_plain(name: Seq<char>)
    ensures
        hindsight::tag_of(name).len() <= 80,
        forall|i: int|
            0 <= i < hindsight::tag_of(name).len() ==> {
                let c = #[trigger] hindsight::tag_of(name)[i];
                ('a' <= c && c <= 'z') || ('0' <= c && c <= '9') || c == '-' || c == '_'
            },
        hindsight::tag_of(name).len() > 0 ==> hindsight::tag_of(name)[0] != '-',
        name.len() <= 80 && (name.len() > 0 ==> name[0] != '-' && name.last() != '-') && (forall|
            i: int,
        |
            0 <= i < name.len() ==> {
                let c = #[trigger] name[i];
                ('a' <= c && c <= 'z') || ('0' <= c && c <= '9') || c == '-' || c == '_'
            }) ==> hindsight::tag_of(name) == name,
{
    let mapped = name.map_values(|c: char| hindsight::tag_char(c));
    let at = lemma_strip_start(mapped, '-');
    let rest = text::strip_start(mapped, '-');
    lemma_strip_end(rest, '-');
    let bare = text::strip_end(rest, '-');
    let tag = hindsight::tag_of(name);
    assert forall|i: int| 0 <= i < tag.len() implies {
        let c = #[trigger] tag[i];
        ('a' <= c && c <= 'z') || ('0' <= c && c <= '9') || c == '-' || c == '_'
    } by {
        assert(tag[i] == bare[i] && bare[i] == rest[i] && rest[i] == mapped[at + i]);
        assert(mapped[at + i] == hindsight::tag_char(name[at + i]));
    }
    if tag.len() > 0 {
        assert(tag[0] == bare[0] && bare[0] == rest[0] && rest[0] == mapped[at]);
    }
    if name.len() <= 80 && (name.len() > 0 ==> name[0] != '-' && name.last() != '-') && (forall|
        i: int,
    |
        0 <= i < name.len() ==> {
            let c = #[trigger] name[i];
            ('a' <= c && c <= 'z') || ('0' <= c && c <= '9') || c == '-' || c == '_'
        }) {
        assert forall|i: int| 0 <= i < name.len() implies mapped[i] == name[i] by {
            let c = name[i];
            assert(hindsight::tag_char(c) == c);
        }
        assert(mapped =~= name);
        if name.len() > 0 {
            assert(at == 0);
            assert(rest =~= name);
            if bare.len() < name.len() {
                assert(rest[name.len() - 1] == '-');
            }
        }
        assert(bare =~= name);
    }
}

/// The tag of a workspace is its name in lower case, with a hyphen for every other character.
pub proof fn law_workspace_tag_is_the_name(name: Seq<char>)
    requires
        0 < name.len() <= 80,
        hindsight::tag_char(name[0]) != '-',
        hindsight::tag_char(name[name.len() - 1]) != '-',
    ensures
        hindsight::tag_of(name).len() == name.len(),
        forall|i: int|
            0 <= i < name.len() ==> {
                let c = name[i];
                let tagged = #[trigger] hindsight::tag_of(name)[i];
                &&& ('a' <= c && c <= 'z') || ('0' <= c && c <= '9') || c == '_' || c == '-'
                    ==> tagged == c
                &&& 'A' <= c && c <= 'Z' ==> tagged as int == c as int + 32
                &&& !(('a' <= c && c <= 'z') || ('A' <= c && c <= 'Z') || ('0' <= c && c <= '9')
                    || c == '_') ==> tagged == '-'
            },
{
    let mapped = name.map_values(|c: char| hindsight::tag_char(c));
    let at = lemma_strip_start(mapped, '-');
    assert(mapped[0] == hindsight::tag_char(name[0]));
    let rest = text::strip_start(mapped, '-');
    assert(at == 0) by {
        if at > 0 {
            assert(mapped[0] == '-');
        }
    }
    assert(rest =~= mapped);
    lemma_strip_end(rest, '-');
    let bare = text::strip_end(rest, '-');
    let last = name.len() - 1;
    assert(rest[last] == hindsight::tag_char(name[last]));
    if bare.len() < name.len() {
        assert(rest[last] == '-');
    }
    assert(bare =~= mapped);
    assert forall|i: int| 0 <= i < name.len() implies #[trigger] hindsight::tag_of(name)[i]
        == hindsight::tag_char(name[i]) by {
        assert(bare[i] == mapped[i]);
    }
}

} // verus!
