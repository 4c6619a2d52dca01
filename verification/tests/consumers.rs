use std::cell::RefCell;
use std::collections::{BTreeMap, HashSet};
use std::rc::Rc;

use agent_bookkeeper::controller::{ControlledRun, RunStep};
use agent_bookkeeper::evidence::{EvidenceConsumerError, FilesystemEvidenceConsumer};
use agent_bookkeeper::hindsight::{
    HindsightConsumer, HindsightConsumerError, HindsightObservationScopes, HindsightPlan,
    HindsightRenderProfile, HindsightRetainRequest, HindsightRetainResponse, HindsightRunner,
    HindsightStep,
};
use agent_bookkeeper::ident::Uuid;
use agent_bookkeeper::mempalace::{
    codex_stream_alias, MempalaceCliConfig, MempalaceCommandRunner, MempalaceConsumer,
    MempalaceConsumerError, MempalaceIngestRequest, MempalaceRunner,
};
use agent_bookkeeper::payload::Removal;
use agent_bookkeeper::transcript::parse_codex_transcript;
use agent_bookkeeper::{
    CanonicalRevision, Catalog, ControlledDeliveryOutcome, ControlledRunLimits,
    ControlledRunReport, ControllerError, CurrentExternalRevision, DeliveryLease, DeliveryOutcome,
    DeliveryRoots, EventKind, LogicalLocation, MaterializationCache, MaterializationLimits,
    MaterializedLease, PathConsumer, PayloadError, ProducerId, RecordIdentity, RetryPolicy,
    SourceFingerprint, Subscription, SubscriptionConfig, SubscriptionMode,
};

/// Files by path.
type Disk = Rc<RefCell<BTreeMap<String, Vec<u8>>>>;

fn fingerprint(bytes: &[u8]) -> SourceFingerprint {
    SourceFingerprint::from_metadata(true, bytes.len() as u64, (1, 0), Some(1), Some(2)).unwrap()
}

fn materialize(
    disk: &Disk,
    cache: &mut MaterializationCache,
    external: &CurrentExternalRevision,
) -> Result<MaterializedLease, PayloadError> {
    let expected = external.expected();
    cache.reserve(expected.byte_length())?;
    let source = format!("{}/{}", external.root(), external.relative_path());
    let bytes = disk.borrow().get(&source).cloned().unwrap();
    let copied = (|| {
        let mut reader = external.open(true, fingerprint(&bytes))?;
        reader.absorb(&bytes)?;
        reader.finish(&fingerprint(&bytes))
    })();
    if let Err(error) = copied {
        cache.release_reservation(expected.byte_length());
        return Err(error);
    }
    let path = cache.payload_path(&expected, Uuid::new_v4());
    disk.borrow_mut().insert(path.clone(), bytes);
    Ok(MaterializedLease::new(&path, expected))
}

fn run_path_consumer<C: PathConsumer>(
    disk: &Disk,
    catalog: &mut Catalog,
    subscription: &Subscription,
    roots: &DeliveryRoots,
    cache: &mut MaterializationCache,
    consumer: &mut C,
    limits: ControlledRunLimits,
    now_ms: i64,
) -> Result<ControlledRunReport, ControllerError> {
    let mut run = ControlledRun::new(subscription.id, limits, now_ms);
    loop {
        match run.advance(catalog, roots)? {
            RunStep::Finished => return Ok(run.finish()),
            RunStep::Apply { external: None } => {
                let answer = consumer.apply(run.held().unwrap(), None);
                run.answer(catalog, answer)?;
            }
            RunStep::Apply { external: Some(external) } => {
                match materialize(disk, cache, &external) {
                    Err(error) => run.materialization_failed(catalog, &error)?,
                    Ok(mut lease) => {
                        let answer = consumer.apply(run.held().unwrap(), Some(lease.path()));
                        disk.borrow_mut().remove(lease.path());
                        lease.release(cache, &Removal::Removed).unwrap();
                        run.answer(catalog, answer)?;
                    }
                }
            }
        }
    }
}

struct LostAcknowledgementConsumer {
    disk: Disk,
    applied: HashSet<(Uuid, Uuid)>,
    source_path: String,
    calls: u32,
}

impl PathConsumer for LostAcknowledgementConsumer {
    fn apply(
        &mut self,
        delivery: &DeliveryLease,
        payload: Option<&str>,
    ) -> Result<DeliveryOutcome, String> {
        self.calls += 1;
        let payload = payload.ok_or_else(|| "fixture expected bytes".to_owned())?;
        if payload == self.source_path {
            return Err("consumer was given the mutable source path".to_owned());
        }
        if self.disk.borrow().get(payload).unwrap() != b"fixture bytes\n" {
            return Err("unexpected materialized bytes".to_owned());
        }
        let key = (
            delivery.subscription_id.as_uuid(),
            delivery.event_id.as_uuid(),
        );
        if self.applied.insert(key) {
            Err("injected lost acknowledgement after durable apply".to_owned())
        } else {
            Ok(DeliveryOutcome::Acknowledged)
        }
    }
}

fn identity() -> RecordIdentity {
    RecordIdentity::new(
        ProducerId::new(),
        "codex",
        "session-a",
        "transcript",
        "primary",
    )
    .unwrap()
}

/// A catalog with one record of these bytes, and a subscription to it.
fn subscribed(consumer_id: &str, tombstones: bool, path: &str, bytes: &[u8]) -> (Catalog, Subscription) {
    let mut catalog = Catalog::open_in_memory().unwrap();
    let subscription = catalog
        .create_subscription(
            SubscriptionConfig::new(consumer_id, 1, true, tombstones)
                .unwrap()
                .with_retry_policy(RetryPolicy::new(8, 0, 0).unwrap()),
            SubscriptionMode::ReplayEvents,
            0,
        )
        .unwrap();
    catalog
        .observe_present_at(
            &identity(),
            &LogicalLocation::new("active", path).unwrap(),
            CanonicalRevision::from_bytes(bytes),
            10,
        )
        .unwrap();
    (catalog, subscription)
}

fn active_roots() -> DeliveryRoots {
    DeliveryRoots::new(&vec![("active".to_owned(), "/source".to_owned())]).unwrap()
}

fn new_cache(bytes: u64) -> MaterializationCache {
    MaterializationCache::new(
        "/cache",
        true,
        MaterializationLimits::new(bytes, 1, bytes).unwrap(),
    )
    .unwrap()
}

#[test]
fn idempotent_path_consumer_survives_lost_acknowledgement_without_duplicate_effect() {
    let disk: Disk = Rc::default();
    let source_path = "/source/sessions/a.jsonl".to_owned();
    disk.borrow_mut()
        .insert(source_path.clone(), b"fixture bytes\n".to_vec());
    let (mut catalog, subscription) =
        subscribed("fixture", true, "sessions/a.jsonl", b"fixture bytes\n");
    let roots = active_roots();
    let mut cache = new_cache(1024);
    let limits = ControlledRunLimits::new(2, 1024, 100).unwrap();
    let mut consumer = LostAcknowledgementConsumer {
        disk: Rc::clone(&disk),
        applied: HashSet::new(),
        source_path,
        calls: 0,
    };

    let first = run_path_consumer(
        &disk,
        &mut catalog,
        &subscription,
        &roots,
        &mut cache,
        &mut consumer,
        limits,
        20,
    )
    .unwrap();
    let second = run_path_consumer(
        &disk,
        &mut catalog,
        &subscription,
        &roots,
        &mut cache,
        &mut consumer,
        limits,
        30,
    )
    .unwrap();

    assert!(matches!(
        first.attempts.as_slice(),
        [attempt] if matches!(attempt.outcome, ControlledDeliveryOutcome::Retried { .. })
    ));
    assert!(matches!(
        second.attempts.as_slice(),
        [attempt] if attempt.outcome == ControlledDeliveryOutcome::Settled(DeliveryOutcome::Acknowledged)
    ));
    assert_eq!(consumer.calls, 2);
    assert_eq!(consumer.applied.len(), 1);
    assert_eq!(
        catalog
            .delivery_counts(subscription.id)
            .unwrap()
            .acknowledged,
        1
    );
    assert_eq!(second.payload_bytes_admitted, 14);
    assert_eq!(disk.borrow().len(), 1);
}

#[test]
fn byte_budget_defers_a_lease_without_starting_the_consumer() {
    let disk: Disk = Rc::default();
    let source_path = "/source/a.jsonl".to_owned();
    disk.borrow_mut()
        .insert(source_path.clone(), b"fixture bytes\n".to_vec());
    let (mut catalog, subscription) = subscribed("fixture", true, "a.jsonl", b"fixture bytes\n");
    let roots = active_roots();
    let mut cache = new_cache(1024);
    let limits = ControlledRunLimits::new(1, 1, 100).unwrap();
    let mut consumer = LostAcknowledgementConsumer {
        disk: Rc::clone(&disk),
        applied: HashSet::new(),
        source_path,
        calls: 0,
    };

    let report = run_path_consumer(
        &disk,
        &mut catalog,
        &subscription,
        &roots,
        &mut cache,
        &mut consumer,
        limits,
        20,
    )
    .unwrap();

    assert!(matches!(
        report.attempts.as_slice(),
        [attempt] if attempt.outcome == ControlledDeliveryOutcome::DeferredByByteBudget
    ));
    assert_eq!(consumer.calls, 0);
    assert_eq!(catalog.delivery_counts(subscription.id).unwrap().queued, 1);
}

#[test]
fn stale_source_bytes_are_retried_without_starting_the_consumer() {
    let disk: Disk = Rc::default();
    disk.borrow_mut()
        .insert("/source/a.jsonl".to_owned(), b"other bytes!!\n".to_vec());
    let (mut catalog, subscription) = subscribed("fixture", true, "a.jsonl", b"fixture bytes\n");
    let mut consumer = LostAcknowledgementConsumer {
        disk: Rc::clone(&disk),
        applied: HashSet::new(),
        source_path: String::new(),
        calls: 0,
    };

    let report = run_path_consumer(
        &disk,
        &mut catalog,
        &subscription,
        &active_roots(),
        &mut new_cache(1024),
        &mut consumer,
        ControlledRunLimits::new(1, 1024, 100).unwrap(),
        20,
    )
    .unwrap();

    assert_eq!(report.attempts.len(), 1);
    assert!(matches!(
        &report.attempts[0].outcome,
        ControlledDeliveryOutcome::Retried { reason }
            if reason.starts_with("verified materialization failed: ")
    ));
    assert_eq!(consumer.calls, 0);
    assert_eq!(catalog.delivery_counts(subscription.id).unwrap().queued, 1);
}

#[test]
fn an_unconfigured_root_role_fails_the_run_and_returns_the_delivery() {
    let disk: Disk = Rc::default();
    let (mut catalog, subscription) = subscribed("fixture", true, "a.jsonl", b"fixture bytes\n");
    let roots = DeliveryRoots::new(&vec![("archived".to_owned(), "/source".to_owned())]).unwrap();
    let mut consumer = LostAcknowledgementConsumer {
        disk: Rc::clone(&disk),
        applied: HashSet::new(),
        source_path: String::new(),
        calls: 0,
    };

    let error = run_path_consumer(
        &disk,
        &mut catalog,
        &subscription,
        &roots,
        &mut new_cache(1024),
        &mut consumer,
        ControlledRunLimits::new(1, 1024, 100).unwrap(),
        20,
    )
    .unwrap_err();

    assert_eq!(
        error,
        ControllerError::UnknownRootRole { root_role: "active".to_owned() }
    );
    assert_eq!(
        error.message(),
        "delivery refers to an unconfigured root role \"active\""
    );
    assert_eq!(catalog.delivery_counts(subscription.id).unwrap().queued, 1);
}

#[test]
fn controller_configuration_is_checked() {
    assert!(matches!(
        ControlledRunLimits::new(0, 1, 1),
        Err(ControllerError::InvalidConfiguration(_))
    ));
    assert!(ControlledRunLimits::new(1, 0, 1).is_ok());
    assert!(matches!(
        ControlledRunLimits::new(1, 1, 0),
        Err(ControllerError::InvalidConfiguration(_))
    ));
    let mut roots = active_roots();
    assert_eq!(roots.get("active"), Some("/source"));
    assert_eq!(roots.get("archived"), None);
    assert!(matches!(
        roots.insert("active", "/elsewhere"),
        Err(ControllerError::InvalidConfiguration(_))
    ));
    assert!(matches!(
        roots.insert("archived", "relative"),
        Err(ControllerError::InvalidConfiguration(_))
    ));
    roots.insert("archived", "/archive").unwrap();
    assert_eq!(roots.get("archived"), Some("/archive"));
}

#[derive(Debug)]
struct Retained {
    content: String,
    timestamp: Option<String>,
    session_id: Option<String>,
    tags: Vec<String>,
    observation_scopes: Option<HindsightObservationScopes>,
}

struct RecordingRunner {
    reply: Result<(), String>,
    requests: Vec<Retained>,
}

impl RecordingRunner {
    fn new() -> RecordingRunner {
        RecordingRunner { reply: Ok(()), requests: Vec::new() }
    }
}

impl HindsightRunner for RecordingRunner {
    fn retain(
        &mut self,
        request: &HindsightRetainRequest,
    ) -> Result<HindsightRetainResponse, String> {
        self.requests.push(Retained {
            content: request.content.clone(),
            timestamp: request.timestamp.clone(),
            session_id: request.metadata.get("session_id").map(str::to_owned),
            tags: request.tags.clone(),
            observation_scopes: request.observation_scopes,
        });
        self.reply.clone()?;
        Ok(HindsightRetainResponse {
            operation_id: Some("operation-1".to_owned()),
        })
    }
}

/// A Hindsight consumer whose receipts stand on the disk.
struct StoredHindsight {
    disk: Disk,
    consumer: HindsightConsumer<RecordingRunner>,
}

impl PathConsumer for StoredHindsight {
    fn apply(
        &mut self,
        delivery: &DeliveryLease,
        payload: Option<&str>,
    ) -> Result<DeliveryOutcome, String> {
        let bytes = payload.map(|path| self.disk.borrow().get(path).cloned().unwrap());
        let place = self.consumer.receipt_path(delivery);
        let existing = self.disk.borrow().get(&place).cloned();
        match self.consumer.apply(delivery, bytes.as_deref(), existing.as_deref()) {
            Ok(HindsightStep::Stands) => {}
            Ok(HindsightStep::Write { receipt }) => {
                self.disk.borrow_mut().insert(place, receipt);
            }
            Ok(HindsightStep::Unrecognized) => panic!("receipt JSON is an object"),
            Err(error) => return Err(error.message()),
        }
        Ok(HindsightConsumer::<RecordingRunner>::outcome(delivery))
    }
}

const TRANSCRIPT: &str = "{\"timestamp\":\"2026-08-01T01:00:00Z\",\"type\":\"session_meta\",\"payload\":{\"id\":\"session-a\",\"cwd\":\"/work/example\"}}\n{\"timestamp\":\"2026-08-01T01:01:00Z\",\"type\":\"event_msg\",\"payload\":{\"type\":\"user_message\",\"message\":\"Keep raw JSONL canonical.\"}}\n{\"timestamp\":\"2026-08-01T01:01:30Z\",\"type\":\"event_msg\",\"payload\":{\"type\":\"custom_tool_call\",\"message\":\"must not send\"}}\n{\"timestamp\":\"2026-08-01T01:02:00Z\",\"type\":\"event_msg\",\"payload\":{\"type\":\"agent_message\",\"message\":\"I will use an adapter.\"}}\n";

#[test]
fn adapter_renders_only_messages_and_writes_a_provenance_receipt() {
    let disk: Disk = Rc::default();
    let bytes = TRANSCRIPT.as_bytes();
    disk.borrow_mut()
        .insert("/source/sessions/a.jsonl".to_owned(), bytes.to_vec());
    let revision = CanonicalRevision::from_bytes(bytes);
    let (mut catalog, subscription) = subscribed("hindsight", false, "sessions/a.jsonl", bytes);
    let consumer = HindsightConsumer::new_with_render_profile_and_observation_scopes(
        "/receipts",
        true,
        "codex-pilot",
        HindsightRenderProfile::LegacyV1,
        Some(HindsightObservationScopes::Shared),
        RecordingRunner::new(),
    )
    .ok()
    .unwrap();
    let mut stored = StoredHindsight { disk: Rc::clone(&disk), consumer };

    let report = run_path_consumer(
        &disk,
        &mut catalog,
        &subscription,
        &active_roots(),
        &mut new_cache(4096),
        &mut stored,
        ControlledRunLimits::new(1, 4096, 100).unwrap(),
        20,
    )
    .unwrap();

    assert_eq!(report.attempts.len(), 1);
    let runner = stored.consumer.runner();
    assert_eq!(runner.requests.len(), 1);
    let request = &runner.requests[0];
    assert!(
        request
            .content
            .contains("User (2026-08-01T01:01:00Z): Keep raw JSONL canonical.")
    );
    assert!(
        request
            .content
            .contains("Assistant (2026-08-01T01:02:00Z): I will use an adapter.")
    );
    assert!(!request.content.contains("must not send"));
    assert_eq!(request.timestamp.as_deref(), Some("2026-08-01T01:02:00Z"));
    assert_eq!(request.session_id.as_deref(), Some("session-a"));
    assert_eq!(request.tags, vec!["agent:codex", "workspace:example"]);
    assert_eq!(
        request.observation_scopes,
        Some(HindsightObservationScopes::Shared)
    );
    let receipts: Vec<(String, Vec<u8>)> = disk
        .borrow()
        .iter()
        .filter(|(path, _)| path.starts_with("/receipts/"))
        .map(|(path, bytes)| (path.clone(), bytes.clone()))
        .collect();
    assert_eq!(receipts.len(), 1);
    let receipt = String::from_utf8(receipts[0].1.clone()).unwrap();
    assert!(receipt.contains("\"consumer\":\"hindsight\""));
    assert!(receipt.contains("\"operation_id\":\"operation-1\""));
    assert!(receipt.contains("\"observation_scopes\":\"shared\""));
    assert!(receipt.contains(&revision.digest_hex()));
    assert!(receipt.ends_with("}\n"));
}

fn leased(consumer_id: &str, bytes: &[u8]) -> DeliveryLease {
    let (mut catalog, subscription) = subscribed(consumer_id, true, "sessions/a.jsonl", bytes);
    catalog.lease_next(subscription.id, 20, 100).unwrap().unwrap()
}

fn hindsight() -> HindsightConsumer<RecordingRunner> {
    HindsightConsumer::new("/receipts", true, "codex-pilot", RecordingRunner::new())
        .ok()
        .unwrap()
}

#[test]
fn a_written_hindsight_receipt_stops_a_second_request() {
    let delivery = leased("hindsight", TRANSCRIPT.as_bytes());
    let mut consumer = hindsight();
    let written = match consumer.apply(&delivery, Some(TRANSCRIPT.as_bytes()), None).unwrap() {
        HindsightStep::Write { receipt } => receipt,
        _ => panic!("no receipt"),
    };
    assert!(matches!(
        consumer.apply(&delivery, Some(TRANSCRIPT.as_bytes()), Some(&written)),
        Ok(HindsightStep::Stands)
    ));
    assert_eq!(consumer.runner().requests.len(), 1);
}

#[test]
fn a_failed_hindsight_request_leaves_no_receipt() {
    let delivery = leased("hindsight", TRANSCRIPT.as_bytes());
    let mut consumer = HindsightConsumer::new(
        "/receipts",
        true,
        "codex-pilot",
        RecordingRunner { reply: Err("offline".to_owned()), requests: Vec::new() },
    )
    .ok()
    .unwrap();
    let error = consumer
        .apply(&delivery, Some(TRANSCRIPT.as_bytes()), None)
        .unwrap_err();
    assert_eq!(error, HindsightConsumerError::Runner("offline".to_owned()));
    assert_eq!(error.message(), "Hindsight runner failed: offline");
}

#[test]
fn hindsight_refuses_what_does_not_belong_to_its_delivery() {
    let delivery = leased("hindsight", TRANSCRIPT.as_bytes());
    let consumer = hindsight();
    assert_eq!(
        consumer.plan(&delivery, Some(b"other"), None).unwrap_err(),
        HindsightConsumerError::ProvenanceMismatch
    );
    assert_eq!(
        consumer.plan(&delivery, None, None).unwrap_err(),
        HindsightConsumerError::MissingPayload
    );
    assert!(matches!(
        consumer.plan(&delivery, Some(TRANSCRIPT.as_bytes()), Some(b"no json")).unwrap_err(),
        HindsightConsumerError::InvalidReceipt(_)
    ));
    assert!(matches!(
        consumer.plan(&delivery, Some(TRANSCRIPT.as_bytes()), Some(b"{}")).unwrap_err(),
        HindsightConsumerError::IdempotencyConflict(_)
    ));
    assert!(matches!(
        consumer.plan(&delivery, Some(TRANSCRIPT.as_bytes()), Some(b"[]")),
        Ok(HindsightPlan::Unrecognized)
    ));
    let broken = leased("hindsight", b"not json\n");
    assert!(matches!(
        consumer.plan(&broken, Some(b"not json\n"), None).unwrap_err(),
        HindsightConsumerError::InvalidTranscript(_)
    ));
}

#[test]
fn a_delivery_without_bytes_is_recorded_but_not_forwarded_to_hindsight() {
    let mut delivery = leased("hindsight", b"x\n");
    delivery.kind = EventKind::RecordTombstoned;
    delivery.revision = None;
    let mut consumer = hindsight();
    assert!(matches!(
        consumer.apply(&delivery, None, None),
        Ok(HindsightStep::Write { .. })
    ));
    assert!(consumer.runner().requests.is_empty());
    assert_eq!(
        HindsightConsumer::<RecordingRunner>::outcome(&delivery),
        DeliveryOutcome::IgnoredByPolicy
    );
    assert_eq!(
        consumer.plan(&delivery, Some(b"bytes"), None).unwrap_err(),
        HindsightConsumerError::UnexpectedPayload
    );
}

fn value_at<'a>(value: &'a serde_json::Value, name: &str) -> &'a serde_json::Value {
    value.get(name).unwrap()
}

#[test]
fn reference_message_profile_uses_final_response_items_and_filters_feedback() {
    let source = "{\"timestamp\":\"2026-08-02T01:00:00Z\",\"type\":\"session_meta\",\"payload\":{\"id\":\"session-reference\",\"cwd\":\"/work/example\"}}\n{\"timestamp\":\"2026-08-02T01:01:00Z\",\"type\":\"response_item\",\"payload\":{\"type\":\"message\",\"role\":\"user\",\"content\":[{\"type\":\"input_text\",\"text\":\"# AGENTS.md instructions for /work/example\\n<INSTRUCTIONS>ignore this</INSTRUCTIONS>\"}]}}\n{\"timestamp\":\"2026-08-02T01:02:00Z\",\"type\":\"response_item\",\"payload\":{\"type\":\"message\",\"role\":\"user\",\"content\":[{\"type\":\"input_text\",\"text\":\"<hindsight_memories>old fact</hindsight_memories> Keep raw JSONL canonical.\"}]}}\n{\"timestamp\":\"2026-08-02T01:03:00Z\",\"type\":\"response_item\",\"payload\":{\"type\":\"message\",\"role\":\"assistant\",\"phase\":\"commentary\",\"content\":[{\"type\":\"output_text\",\"text\":\"Do not retain commentary.\"}]}}\n{\"timestamp\":\"2026-08-02T01:04:00Z\",\"type\":\"response_item\",\"payload\":{\"type\":\"message\",\"role\":\"assistant\",\"phase\":\"final_answer\",\"content\":[{\"type\":\"output_text\",\"text\":\"I will retain only canonical source context.\"}]}}\n";

    let transcript =
        parse_codex_transcript(source.as_bytes(), HindsightRenderProfile::ReferenceMessage)
            .unwrap();
    let content: serde_json::Value = serde_json::from_str(&transcript.content).unwrap();
    let messages = content.as_array().unwrap();
    assert_eq!(messages.len(), 2);
    assert_eq!(value_at(&messages[0], "role"), "user");
    assert_eq!(value_at(&messages[0], "timestamp"), "2026-08-02T01:02:00Z");
    assert_eq!(value_at(&messages[1], "role"), "assistant");
    assert_eq!(value_at(&messages[1], "timestamp"), "2026-08-02T01:04:00Z");
    assert!(transcript.content.contains("Keep raw JSONL canonical."));
    assert!(
        transcript
            .content
            .contains("I will retain only canonical source context.")
    );
    assert!(!transcript.content.contains("AGENTS.md instructions"));
    assert!(!transcript.content.contains("old fact"));
    assert!(!transcript.content.contains("Do not retain commentary."));
    assert_eq!(transcript.render_stats.filtered_synthetic_messages, 1);
    assert_eq!(transcript.render_stats.stripped_memory_echoes, 1);
}

#[test]
fn reference_tool_profile_bounds_tool_output_and_groups_it_with_the_assistant() {
    let oversized_output = "x".repeat(2_100);
    let source = "{\"timestamp\":\"2026-08-02T02:00:00Z\",\"type\":\"response_item\",\"payload\":{\"type\":\"message\",\"role\":\"user\",\"content\":[{\"type\":\"input_text\",\"text\":\"What changed?\"}]}}\n{\"timestamp\":\"2026-08-02T02:01:00Z\",\"type\":\"response_item\",\"payload\":{\"type\":\"local_shell_call\",\"action\":{\"command\":[\"git\",\"status\"]}}}\n{\"timestamp\":\"2026-08-02T02:02:00Z\",\"type\":\"response_item\",\"payload\":{\"type\":\"function_call_output\",\"output\":\"__OVERSIZED_OUTPUT__\"}}\n{\"timestamp\":\"2026-08-02T02:03:00Z\",\"type\":\"response_item\",\"payload\":{\"type\":\"message\",\"role\":\"assistant\",\"phase\":\"final_answer\",\"content\":[{\"type\":\"output_text\",\"text\":\"The renderer is now profile-driven.\"}]}}\n"
        .replace("__OVERSIZED_OUTPUT__", &oversized_output);

    let transcript =
        parse_codex_transcript(source.as_bytes(), HindsightRenderProfile::ReferenceToolAware)
            .unwrap();
    let content: serde_json::Value = serde_json::from_str(&transcript.content).unwrap();
    let messages = content.as_array().unwrap();
    assert_eq!(messages.len(), 2);
    let assistant_blocks = value_at(&messages[1], "content").as_array().unwrap();
    assert_eq!(value_at(&assistant_blocks[0], "type"), "tool_use");
    assert_eq!(value_at(&assistant_blocks[0], "name"), "shell");
    assert_eq!(value_at(&assistant_blocks[1], "type"), "tool_result");
    assert!(
        value_at(&assistant_blocks[1], "content")
            .as_str()
            .unwrap()
            .ends_with("... (truncated)")
    );
    assert_eq!(value_at(&assistant_blocks[2], "type"), "text");
    assert_eq!(transcript.render_stats.tool_calls, 1);
    assert_eq!(transcript.render_stats.tool_results, 1);
    assert_eq!(transcript.render_stats.truncated_tool_results, 1);
}

#[derive(Debug)]
struct Ingested {
    input_path: String,
    source_id: String,
    record_id: Uuid,
    revision: CanonicalRevision,
}

struct IngestingRunner {
    reply: Result<(), String>,
    requests: Vec<Ingested>,
}

impl MempalaceRunner for IngestingRunner {
    fn ingest(&mut self, request: &MempalaceIngestRequest) -> Result<(), String> {
        self.requests.push(Ingested {
            input_path: request.input_path.clone(),
            source_id: request.source_id.clone(),
            record_id: request.record_id,
            revision: request.revision,
        });
        self.reply.clone()
    }
}

/// A MemPalace consumer whose receipts and aliases stand on the disk.
struct StoredMempalace {
    disk: Disk,
    consumer: MempalaceConsumer<IngestingRunner>,
}

impl PathConsumer for StoredMempalace {
    fn apply(
        &mut self,
        delivery: &DeliveryLease,
        payload: Option<&str>,
    ) -> Result<DeliveryOutcome, String> {
        let revision = payload
            .map(|path| CanonicalRevision::from_bytes(self.disk.borrow().get(path).unwrap()));
        let mut alias = String::new();
        if let Some(path) = payload {
            let (directory, name) = path.rsplit_once('/').unwrap();
            let link = codex_stream_alias(path, name, Uuid::new_v4()).unwrap();
            alias = format!("{directory}/{link}");
        }
        let place = self.consumer.receipt_path(delivery);
        let existing = self.disk.borrow().get(&place).cloned();
        match self.consumer.apply(delivery, &revision, &alias, existing.as_deref()) {
            Ok(Some(receipt)) => {
                self.disk.borrow_mut().insert(place, receipt);
            }
            Ok(None) => {}
            Err(error) => return Err(error.message()),
        }
        Ok(MempalaceConsumer::<IngestingRunner>::outcome(delivery))
    }
}

#[test]
fn adapter_uses_stable_record_source_id_and_durable_receipt() {
    let disk: Disk = Rc::default();
    let source_path = "/source/sessions/a.jsonl".to_owned();
    let bytes = b"{\"type\":\"session_meta\"}\n";
    disk.borrow_mut().insert(source_path.clone(), bytes.to_vec());
    let revision = CanonicalRevision::from_bytes(bytes);
    let (mut catalog, subscription) = subscribed("mempalace", false, "sessions/a.jsonl", bytes);
    let runner = IngestingRunner { reply: Ok(()), requests: Vec::new() };
    let consumer = MempalaceConsumer::new("/receipts", true, runner).ok().unwrap();
    let mut stored = StoredMempalace { disk: Rc::clone(&disk), consumer };

    let report = run_path_consumer(
        &disk,
        &mut catalog,
        &subscription,
        &active_roots(),
        &mut new_cache(1024),
        &mut stored,
        ControlledRunLimits::new(1, 1024, 100).unwrap(),
        20,
    )
    .unwrap();

    assert_eq!(report.attempts.len(), 1);
    let runner = stored.consumer.runner();
    assert_eq!(runner.requests.len(), 1);
    let request = &runner.requests[0];
    assert_eq!(request.revision, revision);
    assert!(request.input_path.starts_with("/cache"));
    assert_ne!(request.input_path, source_path);
    assert!(request.input_path.ends_with(".jsonl"));
    assert!(!disk.borrow().contains_key(&request.input_path));
    assert_eq!(
        request.source_id,
        format!("agent-bookkeeper://record/{}", request.record_id.to_text())
    );
    let receipts: Vec<Vec<u8>> = disk
        .borrow()
        .iter()
        .filter(|(path, _)| path.starts_with("/receipts/"))
        .map(|(_, bytes)| bytes.clone())
        .collect();
    assert_eq!(receipts.len(), 1);
    let receipt = String::from_utf8(receipts[0].clone()).unwrap();
    assert!(receipt.contains("\"source_relative_path\":\"sessions/a.jsonl\""));
    assert!(receipt.contains(&revision.digest_hex()));
    assert!(receipt.contains(&request.source_id));
}

#[test]
fn command_runner_uses_the_mem_palace_source_id_contract() {
    let config =
        MempalaceCliConfig::new("/usr/local/bin/mempalace", "/data", "archive").unwrap();
    let runner = MempalaceCommandRunner::new(config);
    let request = MempalaceIngestRequest {
        input_path: "/cache/lease.payload".into(),
        source_id: "agent-bookkeeper://record/abc".to_owned(),
        subscription_id: Uuid::nil(),
        event_id: Uuid::nil(),
        event_sequence: Some(7),
        record_id: Uuid::nil(),
        record_version: 3,
        event_kind: EventKind::RevisionCommitted,
        location: Some(LogicalLocation::new("active", "a.jsonl").unwrap()),
        revision: CanonicalRevision::from_bytes(b"fixture"),
    };

    let arguments = runner.arguments(&request);
    assert_eq!(
        arguments,
        vec![
            "--palace",
            "/data",
            "codex-stream",
            "/cache/lease.payload",
            "--source-id",
            "agent-bookkeeper://record/abc",
            "--wing",
            "archive",
            "--agent",
            "agent-bookkeeper",
        ]
    );
    assert_eq!(runner.executable(), "/usr/local/bin/mempalace");
    assert_eq!(MempalaceCommandRunner::outcome(true, "exit status: 0", ""), Ok(()));
    assert!(MempalaceCommandRunner::outcome(false, "exit status: 3", "no palace").is_err());
}

#[test]
fn mempalace_refuses_what_does_not_belong_to_its_delivery() {
    let bytes = b"{\"type\":\"session_meta\"}\n";
    let delivery = leased("mempalace", bytes);
    let revision = Some(CanonicalRevision::from_bytes(bytes));
    let runner = IngestingRunner { reply: Err("exit".to_owned()), requests: Vec::new() };
    let mut consumer = MempalaceConsumer::new("/receipts", true, runner).ok().unwrap();
    assert_eq!(
        consumer.apply(&delivery, &revision, "/cache/a.jsonl", None).unwrap_err(),
        MempalaceConsumerError::Runner("exit".to_owned())
    );
    assert_eq!(
        consumer.apply(&delivery, &None, "", None).unwrap_err(),
        MempalaceConsumerError::MissingPayload
    );
    let other = Some(CanonicalRevision::from_bytes(b"other"));
    assert_eq!(
        consumer.apply(&delivery, &other, "", None).unwrap_err(),
        MempalaceConsumerError::ProvenanceMismatch
    );
    assert!(matches!(
        consumer.apply(&delivery, &revision, "/cache/a.jsonl", Some(b"{}")).unwrap_err(),
        MempalaceConsumerError::IdempotencyConflict(_)
    ));
    assert!(matches!(
        MempalaceConsumer::new("relative", true, IngestingRunner { reply: Ok(()), requests: Vec::new() }),
        Err(MempalaceConsumerError::InvalidConfiguration(_))
    ));
    assert!(matches!(
        MempalaceCliConfig::new("/bin/mempalace", "/data", " wing"),
        Err(MempalaceConsumerError::InvalidConfiguration(_))
    ));
}

#[test]
fn evidence_manifest_stands_after_it_was_written_once() {
    let bytes = b"evidence\n";
    let delivery = leased("evidence", bytes);
    let revision = Some(CanonicalRevision::from_bytes(bytes));
    let consumer = FilesystemEvidenceConsumer::new("/evidence", true).ok().unwrap();
    let manifest = consumer.apply(&delivery, &revision, None).unwrap().unwrap();
    let text = String::from_utf8(manifest.clone()).unwrap();
    assert!(text.contains(&revision.unwrap().digest_hex()));
    assert!(text.contains(&delivery.event_id.as_uuid().to_text()));
    assert_eq!(consumer.apply(&delivery, &revision, Some(&manifest)), Ok(None));
    assert!(matches!(
        consumer.apply(&delivery, &revision, Some(b"{}")),
        Err(EvidenceConsumerError::IdempotencyConflict(_))
    ));
    assert_eq!(
        consumer.apply(&delivery, &None, None),
        Err(EvidenceConsumerError::MissingPayload)
    );
    assert_eq!(
        consumer.apply(&delivery, &Some(CanonicalRevision::from_bytes(b"?")), None),
        Err(EvidenceConsumerError::ProvenanceMismatch)
    );
    assert!(consumer
        .manifest_path(&delivery)
        .starts_with("/evidence/"));
    assert!(FilesystemEvidenceConsumer::new("/evidence", false).is_err());
}

#[test]
fn a_payload_is_refused_where_none_is_delivered() {
    let bytes = b"bytes\n";
    let mut delivery = leased("evidence", bytes);
    delivery.revision = None;
    let revision = Some(CanonicalRevision::from_bytes(bytes));
    let evidence = FilesystemEvidenceConsumer::new("/evidence", true).ok().unwrap();
    assert_eq!(
        evidence.apply(&delivery, &revision, None),
        Err(EvidenceConsumerError::UnexpectedPayload)
    );
    let runner = IngestingRunner { reply: Ok(()), requests: Vec::new() };
    let mut mempalace = MempalaceConsumer::new("/receipts", true, runner).ok().unwrap();
    assert_eq!(
        mempalace.apply(&delivery, &revision, "/cache/a.jsonl", None),
        Err(MempalaceConsumerError::UnexpectedPayload)
    );
    assert!(mempalace.runner().requests.is_empty());
    assert!(matches!(
        FilesystemEvidenceConsumer::new("evidence", true),
        Err(EvidenceConsumerError::InvalidConfiguration(_))
    ));
}

#[test]
fn a_transcript_that_is_no_text_is_refused() {
    let bytes = b"{}\n\xff\n";
    assert_eq!(
        parse_codex_transcript(bytes, HindsightRenderProfile::LegacyV1).unwrap_err(),
        HindsightConsumerError::Io("stream did not contain valid UTF-8".to_owned())
    );
}

#[test]
fn a_delivery_of_bytes_without_a_place_fails_the_run() {
    let disk: Disk = Rc::default();
    let (catalog, subscription) = subscribed("fixture", true, "a.jsonl", b"fixture bytes\n");
    let mut columns = catalog.to_columns();
    for delivery in &mut columns.deliveries {
        delivery.root_role = None;
        delivery.source_relative_path = None;
    }
    let mut catalog = Catalog::from_columns(&columns).unwrap();
    let mut consumer = LostAcknowledgementConsumer {
        disk: Rc::clone(&disk),
        applied: HashSet::new(),
        source_path: String::new(),
        calls: 0,
    };
    let error = run_path_consumer(
        &disk,
        &mut catalog,
        &subscription,
        &active_roots(),
        &mut new_cache(1024),
        &mut consumer,
        ControlledRunLimits::new(1, 1024, 100).unwrap(),
        20,
    )
    .unwrap_err();
    assert_eq!(error, ControllerError::MissingDeliveryLocation);
    assert_eq!(consumer.calls, 0);
    assert_eq!(catalog.delivery_counts(subscription.id).unwrap().queued, 1);
}

#[test]
fn the_index_can_be_fed_under_another_agent_name() {
    let config = || MempalaceCliConfig::new("/bin/mempalace", "/data", "wing").ok().unwrap();
    assert!(config().with_agent("other").is_ok());
    assert!(matches!(
        config().with_agent(""),
        Err(MempalaceConsumerError::InvalidConfiguration(_))
    ));
}

#[test]
fn a_run_admits_the_bytes_that_it_settles() {
    let mut catalog = Catalog::open_in_memory().unwrap();
    let subscription = catalog
        .create_subscription(
            SubscriptionConfig::new("fixture", 1, true, true).unwrap(),
            SubscriptionMode::ReplayEvents,
            0,
        )
        .unwrap();
    for (name, content) in [("a", "12345"), ("b", "123"), ("c", "1")] {
        catalog
            .observe_present_at(
                &RecordIdentity::new(ProducerId::new(), "codex", name, "transcript", "primary")
                    .unwrap(),
                &LogicalLocation::new("active", &format!("{name}.jsonl")).unwrap(),
                CanonicalRevision::from_bytes(content.as_bytes()),
                10,
            )
            .unwrap();
    }
    let limits = ControlledRunLimits::new(5, 100, 100).unwrap();
    let mut run = ControlledRun::new(subscription.id, limits, 20);
    for answer in [
        Ok(DeliveryOutcome::Acknowledged),
        Ok(DeliveryOutcome::IgnoredByPolicy),
        Err("no".to_owned()),
    ] {
        assert!(matches!(
            run.advance(&mut catalog, &active_roots()).unwrap(),
            RunStep::Apply { external: Some(_) }
        ));
        run.answer(&mut catalog, answer).unwrap();
    }
    assert!(matches!(
        run.advance(&mut catalog, &active_roots()).unwrap(),
        RunStep::Finished
    ));
    let report = run.finish();
    assert_eq!(report.payload_bytes_admitted, 8);
    assert_eq!(report.attempts.len(), 3);
    assert!(matches!(
        report.attempts[1].outcome,
        ControlledDeliveryOutcome::Settled(DeliveryOutcome::IgnoredByPolicy)
    ));
    assert!(matches!(
        report.attempts[2].outcome,
        ControlledDeliveryOutcome::Retried { .. }
    ));
}
