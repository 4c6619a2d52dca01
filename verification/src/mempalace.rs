//! The semantic-index consumer: its command line, its requests and its receipts.
use vstd::prelude::*;

use crate::delivery::{DeliveryLease, LeaseView};
use crate::domain;
use crate::domain::{
    copy_location, CanonicalRevision, DeliveryOutcome, DomainError, DomainErrorView, EventKind,
    LocationView, LogicalLocation, RevisionView,
};
use crate::ident;
use crate::ident::Uuid;
use crate::json;
use crate::json::{JsonObject, JsonView};
use crate::paths;
use crate::paths::{has_jsonl_extension, is_absolute};
use crate::receipts;
use crate::receipts::{
    check_payload, event_idempotency_key, find_receipt_place, make_location, make_payload,
    make_sequence, receipt_outcome, record_source_id, same_bytes, write_json_line, PayloadFault,
};
use crate::text;
use crate::text::{concat2, concat3, label_ok, trimmed};

verus! {

/// Why the consumer refused a delivery.
#[derive(Debug, Eq, PartialEq)]
pub enum MempalaceConsumerError {
    /// Reading or writing failed, with the reason.
    Io(String),
    Domain(DomainError),
    InvalidConfiguration(String),
    ProvenanceMismatch,
    MissingPayload,
    UnexpectedPayload,
    /// A receipt of other provenance stands at this path.
    IdempotencyConflict(String),
    Runner(String),
}

/// A `MempalaceConsumerError` with its texts as character sequences.
pub enum MempalaceErrorView {
    Io(Seq<char>),
    Domain(DomainErrorView),
    InvalidConfiguration(Seq<char>),
    ProvenanceMismatch,
    MissingPayload,
    UnexpectedPayload,
    IdempotencyConflict(Seq<char>),
    Runner(Seq<char>),
}

impl View for MempalaceConsumerError {
    type V = MempalaceErrorView;

    open spec fn view(&self) -> MempalaceErrorView {
        match *self {
            MempalaceConsumerError::Io(m) => MempalaceErrorView::Io(m@),
            MempalaceConsumerError::Domain(error) => MempalaceErrorView::Domain(error@),
            MempalaceConsumerError::InvalidConfiguration(m) => {
                MempalaceErrorView::InvalidConfiguration(m@)
            },
            MempalaceConsumerError::ProvenanceMismatch => MempalaceErrorView::ProvenanceMismatch,
            MempalaceConsumerError::MissingPayload => MempalaceErrorView::MissingPayload,
            MempalaceConsumerError::UnexpectedPayload => MempalaceErrorView::UnexpectedPayload,
            MempalaceConsumerError::IdempotencyConflict(path) => {
                MempalaceErrorView::IdempotencyConflict(path@)
            },
            MempalaceConsumerError::Runner(m) => MempalaceErrorView::Runner(m@),
        }
    }
}

/// The message of a consumer error.
pub open spec fn mempalace_message(error: MempalaceErrorView) -> Seq<char> {
    match error {
        MempalaceErrorView::Io(m) => m,
        MempalaceErrorView::Domain(inner) => domain::domain_message(inner),
        MempalaceErrorView::InvalidConfiguration(m) => {
            "invalid MemPalace consumer configuration: "@ + m
        },
        MempalaceErrorView::ProvenanceMismatch => {
            "leased payload does not match its declared revision"@
        },
        MempalaceErrorView::MissingPayload => "byte-bearing delivery has no materialized payload"@,
        MempalaceErrorView::UnexpectedPayload => {
            "metadata-only delivery unexpectedly has a payload"@
        },
        MempalaceErrorView::IdempotencyConflict(path) => {
            "existing MemPalace receipt conflicts with delivery provenance: "@ + path
        },
        MempalaceErrorView::Runner(m) => "MemPalace runner failed: "@ + m,
    }
}

impl MempalaceConsumerError {
    /// The message for an operator.
    pub fn message(&self) -> (result: String)
        ensures
            result@ == mempalace_message(self@),
    {
        match self {
            MempalaceConsumerError::Io(m) => m.clone(),
            MempalaceConsumerError::Domain(inner) => inner.message(),
            MempalaceConsumerError::InvalidConfiguration(m) => {
                concat2("invalid MemPalace consumer configuration: ", m.as_str())
            },
            MempalaceConsumerError::ProvenanceMismatch => {
                "leased payload does not match its declared revision".to_owned()
            },
            MempalaceConsumerError::MissingPayload => {
                "byte-bearing delivery has no materialized payload".to_owned()
            },
            MempalaceConsumerError::UnexpectedPayload => {
                "metadata-only delivery unexpectedly has a payload".to_owned()
            },
            MempalaceConsumerError::IdempotencyConflict(path) => {
                concat2(
                    "existing MemPalace receipt conflicts with delivery provenance: ",
                    path.as_str(),
                )
            },
            MempalaceConsumerError::Runner(m) => concat2("MemPalace runner failed: ", m.as_str()),
        }
    }
}

/// The error for a payload fault.
pub open spec fn fault_error(fault: PayloadFault) -> MempalaceErrorView {
    match fault {
        PayloadFault::ProvenanceMismatch => MempalaceErrorView::ProvenanceMismatch,
        PayloadFault::MissingPayload => MempalaceErrorView::MissingPayload,
        PayloadFault::UnexpectedPayload => MempalaceErrorView::UnexpectedPayload,
    }
}

/// Refuses a label that is empty, not trimmed, or holds a NUL character.
pub fn required_label(name: &str, value: &str) -> (result: Result<String, MempalaceConsumerError>)
    ensures
        match result {
            Ok(label) => text::is_label(value@) && label@ == value@,
            Err(error) => !text::is_label(value@) && error@ == label_refusal(name@),
        },
{
    if label_ok(value) {
        Ok(value.to_owned())
    } else {
        Err(
            MempalaceConsumerError::InvalidConfiguration(
                concat3(
                    "MemPalace ",
                    name,
                    " must be non-empty, trimmed, and free of NUL bytes",
                ),
            ),
        )
    }
}

/// Why a label is refused.
pub open spec fn label_refusal(name: Seq<char>) -> MempalaceErrorView {
    MempalaceErrorView::InvalidConfiguration(
        "MemPalace "@ + name + " must be non-empty, trimmed, and free of NUL bytes"@,
    )
}

/// How the index's command line is called.
#[derive(Debug)]
pub struct MempalaceCliConfig {
    executable: String,
    palace_path: String,
    wing: String,
    agent: String,
}

/// How the index's command line is called.
#[verifier::ext_equal]
pub struct CliView {
    pub executable: Seq<char>,
    pub palace_path: Seq<char>,
    pub wing: Seq<char>,
    pub agent: Seq<char>,
}

impl View for MempalaceCliConfig {
    type V = CliView;

    closed spec fn view(&self) -> CliView {
        CliView {
            executable: self.executable@,
            palace_path: self.palace_path@,
            wing: self.wing@,
            agent: self.agent@,
        }
    }
}

/// What is wrong with a command-line configuration.
pub open spec fn cli_refusal(
    executable: Seq<char>,
    palace_path: Seq<char>,
    wing: Seq<char>,
) -> Option<MempalaceErrorView> {
    if executable.len() == 0 {
        Some(MempalaceErrorView::InvalidConfiguration("MemPalace executable must not be empty"@))
    } else if !paths::absolute(palace_path) {
        Some(MempalaceErrorView::InvalidConfiguration("MemPalace palace path must be absolute"@))
    } else if !text::is_label(wing) {
        Some(label_refusal("wing"@))
    } else {
        None
    }
}

impl MempalaceCliConfig {
    /// A configuration with an executable, an absolute index path and a wing.
    pub fn new(executable: &str, palace_path: &str, wing: &str) -> (result: Result<
        MempalaceCliConfig,
        MempalaceConsumerError,
    >)
        ensures
            match result {
                Ok(config) => {
                    &&& cli_refusal(executable@, palace_path@, wing@) is None
                    &&& config@ == (CliView {
                        executable: executable@,
                        palace_path: palace_path@,
                        wing: wing@,
                        agent: "agent-bookkeeper"@,
                    })
                },
                Err(error) => cli_refusal(executable@, palace_path@, wing@) == Some(error@),
            },
    {
        if executable.is_empty() {
            return Err(
                MempalaceConsumerError::InvalidConfiguration(
                    "MemPalace executable must not be empty".to_owned(),
                ),
            );
        }
        if !is_absolute(palace_path) {
            return Err(
                MempalaceConsumerError::InvalidConfiguration(
                    "MemPalace palace path must be absolute".to_owned(),
                ),
            );
        }
        match required_label("wing", wing) {
            Ok(wing) => Ok(
                MempalaceCliConfig {
                    executable: executable.to_owned(),
                    palace_path: palace_path.to_owned(),
                    wing,
                    agent: "agent-bookkeeper".to_owned(),
                },
            ),
            Err(error) => Err(error),
        }
    }

    /// The configuration under another agent name.
    pub fn with_agent(self, agent: &str) -> (result: Result<
        MempalaceCliConfig,
        MempalaceConsumerError,
    >)
        ensures
            match result {
                Ok(config) => text::is_label(agent@) && config@ == (CliView {
                    agent: agent@,
                    ..self@
                }),
                Err(error) => !text::is_label(agent@) && error@ == label_refusal("agent"@),
            },
    {
        match required_label("agent", agent) {
            Ok(agent) => Ok(
                MempalaceCliConfig {
                    executable: self.executable,
                    palace_path: self.palace_path,
                    wing: self.wing,
                    agent,
                },
            ),
            Err(error) => Err(error),
        }
    }

    pub fn executable(&self) -> (result: &str)
        ensures
            result@ == self@.executable,
    {
        self.executable.as_str()
    }
}

/// One ingestion with its complete provenance.
#[derive(Debug)]
pub struct MempalaceIngestRequest {
    pub input_path: String,
    pub source_id: String,
    pub subscription_id: Uuid,
    pub event_id: Uuid,
    pub event_sequence: Option<u64>,
    pub record_id: Uuid,
    pub record_version: u64,
    pub event_kind: EventKind,
    pub location: Option<LogicalLocation>,
    pub revision: CanonicalRevision,
}

/// One ingestion with its complete provenance.
#[verifier::ext_equal]
pub struct IngestView {
    pub input_path: Seq<char>,
    pub source_id: Seq<char>,
    pub subscription_id: Uuid,
    pub event_id: Uuid,
    pub event_sequence: Option<u64>,
    pub record_id: Uuid,
    pub record_version: u64,
    pub event_kind: EventKind,
    pub location: Option<LocationView>,
    pub revision: RevisionView,
}

impl View for MempalaceIngestRequest {
    type V = IngestView;

    open spec fn view(&self) -> IngestView {
        IngestView {
            input_path: self.input_path@,
            source_id: self.source_id@,
            subscription_id: self.subscription_id,
            event_id: self.event_id,
            event_sequence: self.event_sequence,
            record_id: self.record_id,
            record_version: self.record_version,
            event_kind: self.event_kind,
            location: text::view_option(self.location),
            revision: self.revision@,
        }
    }
}

/// Executes one ingestion. The input path is valid only until `ingest` returns.
pub trait MempalaceRunner {
    /// Whether the runner, asked for this, may answer so and be left so. A runner says for itself
    /// what that is; one that says nothing may answer anything.
    open spec fn answers(
        &self,
        request: IngestView,
        after: &Self,
        reply: Result<(), Seq<char>>,
    ) -> bool {
        true
    }

    fn ingest(&mut self, request: &MempalaceIngestRequest) -> (reply: Result<(), String>)
        ensures
            old(self).answers(request@, final(self), reply_view(reply)),
    ;
}

/// The command line of one ingestion.
pub open spec fn command_line(config: CliView, request: IngestView) -> Seq<Seq<char>> {
    seq![
        "--palace"@,
        config.palace_path,
        "codex-stream"@,
        request.input_path,
        "--source-id"@,
        request.source_id,
        "--wing"@,
        config.wing,
        "--agent"@,
        config.agent,
    ]
}

/// What the end of the command means: success, or the failure with what it wrote as an error.
pub open spec fn command_outcome(success: bool, status: Seq<char>, stderr: Seq<char>) -> Result<
    (),
    Seq<char>,
> {
    if success {
        Ok(())
    } else {
        let summary = if text::trim(stderr).len() == 0 {
            "no stderr output"@
        } else {
            text::trim(stderr)
        };
        Err("MemPalace exited with "@ + status + ": "@ + summary)
    }
}

/// Calls the index's command line.
#[derive(Debug)]
pub struct MempalaceCommandRunner {
    config: MempalaceCliConfig,
}

impl View for MempalaceCommandRunner {
    type V = CliView;

    closed spec fn view(&self) -> CliView {
        self.config@
    }
}

impl MempalaceCommandRunner {
    pub fn new(config: MempalaceCliConfig) -> (result: MempalaceCommandRunner)
        ensures
            result@ == config@,
    {
        MempalaceCommandRunner { config }
    }

    pub fn executable(&self) -> (result: &str)
        ensures
            result@ == self@.executable,
    {
        self.config.executable()
    }

    /// The command line of one ingestion.
    pub fn arguments(&self, request: &MempalaceIngestRequest) -> (result: Vec<String>)
        ensures
            text::views(result@) == command_line(self@, request@),
    {
        let mut arguments: Vec<String> = Vec::new();
        arguments.push("--palace".to_owned());
        arguments.push(self.config.palace_path.clone());
        arguments.push("codex-stream".to_owned());
        arguments.push(request.input_path.clone());
        arguments.push("--source-id".to_owned());
        arguments.push(request.source_id.clone());
        arguments.push("--wing".to_owned());
        arguments.push(self.config.wing.clone());
        arguments.push("--agent".to_owned());
        arguments.push(self.config.agent.clone());
        assert(text::views(arguments@) =~= command_line(self@, request@));
        arguments
    }

    /// What the end of the command means.
    pub fn outcome(success: bool, status: &str, stderr: &str) -> (result: Result<(), String>)
        ensures
            (match result {
                Ok(_) => Ok(()),
                Err(reason) => Err(reason@),
            }) == command_outcome(success, status@, stderr@),
    {
        if success {
            return Ok(());
        }
        let summary = trimmed(stderr);
        let summary = if summary.as_str().is_empty() {
            "no stderr output".to_owned()
        } else {
            summary
        };
        let head = concat3("MemPalace exited with ", status, ": ");
        Err(concat2(head.as_str(), summary.as_str()))
    }
}

/// The receipt of a delivery.
pub open spec fn receipt_json(lease: LeaseView, payload: Option<RevisionView>) -> JsonView {
    JsonView::Object(
        receipts::blank().insert("format_version"@, JsonView::Unsigned(1)).insert(
            "consumer"@,
            JsonView::Text("mempalace"@),
        ).insert(
            "subscription_id"@,
            JsonView::Text(ident::uuid_text(lease.subscription_id.id)),
        ).insert("event_id"@, JsonView::Text(ident::uuid_text(lease.event_id.id))).insert(
            "event_idempotency_key"@,
            JsonView::Text(receipts::idempotency_key(lease)),
        ).insert("event_sequence"@, receipts::sequence_json(lease.event_sequence)).insert(
            "record_id"@,
            JsonView::Text(ident::uuid_text(lease.record_id.id)),
        ).insert("record_version"@, JsonView::Unsigned(lease.record_version)).insert(
            "event_kind"@,
            JsonView::Text(domain::event_kind_name(lease.kind)),
        ).insert("source_id"@, JsonView::Text(receipts::source_id(lease))).insert(
            "location"@,
            receipts::location_json(lease.location),
        ).insert("payload"@, receipts::payload_json(payload)),
    )
}

/// The bytes of a delivery's receipt.
pub fn receipt_bytes(delivery: &DeliveryLease, payload: &Option<CanonicalRevision>) -> (result: Vec<
    u8,
>)
    ensures
        result@ == receipts::json_line(receipt_json(delivery@, text::view_option(*payload))),
        json::reads_as(result@, receipt_json(delivery@, text::view_option(*payload))),
{
    let receipt = JsonObject::new().with_number("format_version", 1).with_text(
        "consumer",
        "mempalace",
    ).with_text("subscription_id", delivery.subscription_id.to_text().as_str()).with_text(
        "event_id",
        delivery.event_id.as_uuid().to_text().as_str(),
    ).with_text("event_idempotency_key", event_idempotency_key(delivery).as_str()).with(
        "event_sequence",
        make_sequence(delivery.event_sequence),
    ).with_text("record_id", delivery.record_id.as_uuid().to_text().as_str()).with_number(
        "record_version",
        delivery.record_version,
    ).with_text("event_kind", delivery.kind.as_db()).with_text(
        "source_id",
        record_source_id(delivery).as_str(),
    ).with("location", make_location(&delivery.location)).with(
        "payload",
        make_payload(payload),
    ).finish();
    proof {
        lemma_receipt_shallow(delivery@, text::view_option(*payload));
    }
    write_json_line(&receipt)
}

proof fn lemma_receipt_shallow(lease: LeaseView, payload: Option<RevisionView>)
    ensures
        json::shallow(receipt_json(lease, payload), 127),
{
    reveal_with_fuel(json::shallow, 2);
    receipts::lemma_parts_shallow(lease.location, payload, lease.event_sequence);
}

/// The name of the short-lived link under which a payload is read.
pub open spec fn alias_name(filename: Seq<char>, nonce: Uuid) -> Seq<char> {
    "."@ + filename + "."@ + ident::uuid_text(nonce) + ".jsonl"@
}

/// The name of the link under which a payload that is called otherwise is read as a transcript;
/// none where its name ends in `.jsonl` already.
pub fn codex_stream_alias(payload: &str, filename: &str, nonce: Uuid) -> (result: Option<String>)
    ensures
        text::view_option(result) == (if paths::is_jsonl(payload@) {
            None
        } else {
            Some(alias_name(filename@, nonce))
        }),
{
    if has_jsonl_extension(payload) {
        None
    } else {
        let head = concat3(".", filename, ".");
        Some(concat3(head.as_str(), nonce.to_text().as_str(), ".jsonl"))
    }
}

/// A consumer that feeds an index and keeps one receipt for each event below its root.
#[derive(Debug)]
pub struct MempalaceConsumer<R> {
    receipt_root: String,
    runner: R,
}

/// What is wrong with a receipt root.
pub open spec fn root_refusal(root: Seq<char>, real_directory: bool) -> Option<MempalaceErrorView> {
    if !paths::absolute(root) {
        Some(MempalaceErrorView::InvalidConfiguration("MemPalace receipt root must be absolute"@))
    } else if !real_directory {
        Some(
            MempalaceErrorView::InvalidConfiguration(
                "MemPalace receipt root must be a real directory"@,
            ),
        )
    } else {
        None
    }
}

/// The ingestion that a delivery asks for.
pub open spec fn ingest_request(
    lease: LeaseView,
    revision: RevisionView,
    input_path: Seq<char>,
) -> IngestView {
    IngestView {
        input_path,
        source_id: receipts::source_id(lease),
        subscription_id: lease.subscription_id.id,
        event_id: lease.event_id.id,
        event_sequence: lease.event_sequence,
        record_id: lease.record_id.id,
        record_version: lease.record_version,
        event_kind: lease.kind,
        location: lease.location,
        revision,
    }
}

/// What a delivery comes to before the index is asked.
pub enum MempalacePlanView {
    /// The receipt stands already.
    Done,
    /// Nothing is to be ingested; the receipt is to be written.
    Record { receipt: Seq<u8> },
    /// The request is to be executed, and the receipt to be written after it succeeds.
    Ingest { request: IngestView, receipt: Seq<u8> },
}

/// What a delivery comes to before the index is asked.
pub open spec fn planned(
    root: Seq<char>,
    lease: LeaseView,
    payload: Option<RevisionView>,
    input_path: Seq<char>,
    existing: Option<Seq<u8>>,
) -> Result<MempalacePlanView, MempalaceErrorView> {
    let receipt = receipts::json_line(receipt_json(lease, payload));
    match receipts::payload_fault(lease.revision, payload) {
        Some(fault) => Err(fault_error(fault)),
        None => match existing {
            Some(found) => if found == receipt {
                Ok(MempalacePlanView::Done)
            } else {
                Err(MempalaceErrorView::IdempotencyConflict(receipts::receipt_place(root, lease)))
            },
            None => match payload {
                Some(revision) => Ok(
                    MempalacePlanView::Ingest {
                        request: ingest_request(lease, revision, input_path),
                        receipt,
                    },
                ),
                None => Ok(MempalacePlanView::Record { receipt }),
            },
        },
    }
}

/// What a delivery comes to before the index is asked.
#[derive(Debug)]
pub enum MempalacePlan {
    Done,
    Record { receipt: Vec<u8> },
    Ingest { request: MempalaceIngestRequest, receipt: Vec<u8> },
}

impl View for MempalacePlan {
    type V = MempalacePlanView;

    open spec fn view(&self) -> MempalacePlanView {
        match *self {
            MempalacePlan::Done => MempalacePlanView::Done,
            MempalacePlan::Record { receipt } => MempalacePlanView::Record { receipt: receipt@ },
            MempalacePlan::Ingest { request, receipt } => MempalacePlanView::Ingest {
                request: request@,
                receipt: receipt@,
            },
        }
    }
}

/// What is left to write once the index has answered.
pub open spec fn settled(
    plan: MempalacePlanView,
    reply: Result<(), Seq<char>>,
) -> Result<Option<Seq<u8>>, MempalaceErrorView> {
    match plan {
        MempalacePlanView::Done => Ok(None),
        MempalacePlanView::Record { receipt } => Ok(Some(receipt)),
        MempalacePlanView::Ingest { receipt, .. } => match reply {
            Ok(_) => Ok(Some(receipt)),
            Err(reason) => Err(MempalaceErrorView::Runner(reason)),
        },
    }
}

/// The reply of a runner with its text as a character sequence.
pub open spec fn reply_view(reply: Result<(), String>) -> Result<(), Seq<char>> {
    match reply {
        Ok(_) => Ok(()),
        Err(reason) => Err(reason@),
    }
}

/// The receipt to write, or the error, with its texts as sequences.
pub open spec fn receipt_outcome_view(
    result: Result<Option<Vec<u8>>, MempalaceConsumerError>,
) -> Result<Option<Seq<u8>>, MempalaceErrorView> {
    match result {
        Ok(receipt) => Ok(text::view_option(receipt)),
        Err(error) => Err(error@),
    }
}

/// What is left to write once the index has answered.
pub fn settle(plan: MempalacePlan, reply: Result<(), String>) -> (result: Result<
    Option<Vec<u8>>,
    MempalaceConsumerError,
>)
    ensures
        receipt_outcome_view(result) == settled(plan@, reply_view(reply)),
{
    match plan {
        MempalacePlan::Done => Ok(None),
        MempalacePlan::Record { receipt } => Ok(Some(receipt)),
        MempalacePlan::Ingest { request, receipt } => match reply {
            Ok(_) => Ok(Some(receipt)),
            Err(reason) => Err(MempalaceConsumerError::Runner(reason)),
        },
    }
}

impl<R> MempalaceConsumer<R> {
    /// The root below which the receipts stand.
    pub closed spec fn root(self) -> Seq<char> {
        self.receipt_root@
    }

    /// A consumer with an absolute receipt root, which must be a directory and no symbolic link.
    pub fn new(receipt_root: &str, real_directory: bool, runner: R) -> (result: Result<
        MempalaceConsumer<R>,
        MempalaceConsumerError,
    >)
        ensures
            match result {
                Ok(consumer) => {
                    &&& root_refusal(receipt_root@, real_directory) is None
                    &&& consumer.root() == receipt_root@
                    &&& consumer.held_runner() == runner
                },
                Err(error) => root_refusal(receipt_root@, real_directory) == Some(error@),
            },
    {
        if !is_absolute(receipt_root) {
            return Err(
                MempalaceConsumerError::InvalidConfiguration(
                    "MemPalace receipt root must be absolute".to_owned(),
                ),
            );
        }
        if !real_directory {
            return Err(
                MempalaceConsumerError::InvalidConfiguration(
                    "MemPalace receipt root must be a real directory".to_owned(),
                ),
            );
        }
        Ok(MempalaceConsumer { receipt_root: receipt_root.to_owned(), runner })
    }

    /// The place of a delivery's receipt.
    pub fn receipt_path(&self, delivery: &DeliveryLease) -> (result: String)
        ensures
            result@ == receipts::receipt_place(self.root(), delivery@),
    {
        find_receipt_place(self.receipt_root.as_str(), delivery)
    }

    /// The identity of the delivered record towards the index.
    pub fn source_id(delivery: &DeliveryLease) -> (result: String)
        ensures
            result@ == receipts::source_id(delivery@),
    {
        record_source_id(delivery)
    }

    /// The runner that executes the ingestions.
    pub fn runner(&self) -> (result: &R)
        ensures
            *result == self.held_runner(),
    {
        &self.runner
    }

    /// The runner that executes the ingestions.
    pub closed spec fn held_runner(self) -> R {
        self.runner
    }

    /// What a delivery comes to before the index is asked, given the bytes that stand at the
    /// place of its receipt.
    pub fn plan(
        &self,
        delivery: &DeliveryLease,
        payload: &Option<CanonicalRevision>,
        input_path: &str,
        existing: Option<&[u8]>,
    ) -> (result: Result<MempalacePlan, MempalaceConsumerError>)
        ensures
            (match result {
                Ok(plan) => Ok(plan@),
                Err(error) => Err(error@),
            }) == planned(
                self.root(),
                delivery@,
                text::view_option(*payload),
                input_path@,
                text::view_option(existing),
            ),
    {
        match check_payload(delivery, payload) {
            Some(PayloadFault::ProvenanceMismatch) => {
                return Err(MempalaceConsumerError::ProvenanceMismatch);
            },
            Some(PayloadFault::MissingPayload) => {
                return Err(MempalaceConsumerError::MissingPayload);
            },
            Some(PayloadFault::UnexpectedPayload) => {
                return Err(MempalaceConsumerError::UnexpectedPayload);
            },
            None => {},
        }
        let receipt = receipt_bytes(delivery, payload);
        match existing {
            Some(found) => if same_bytes(found, receipt.as_slice()) {
                Ok(MempalacePlan::Done)
            } else {
                Err(MempalaceConsumerError::IdempotencyConflict(self.receipt_path(delivery)))
            },
            None => match payload {
                Some(revision) => {
                    let request = MempalaceIngestRequest {
                        input_path: input_path.to_owned(),
                        source_id: record_source_id(delivery),
                        subscription_id: delivery.subscription_id.as_uuid(),
                        event_id: delivery.event_id.as_uuid(),
                        event_sequence: delivery.event_sequence,
                        record_id: delivery.record_id.as_uuid(),
                        record_version: delivery.record_version,
                        event_kind: delivery.kind,
                        location: copy_location(&delivery.location),
                        revision: *revision,
                    };
                    assert(request@ =~= ingest_request(delivery@, revision@, input_path@));
                    Ok(MempalacePlan::Ingest { request, receipt })
                },
                None => Ok(MempalacePlan::Record { receipt }),
            },
        }
    }

    /// The outcome of an applied delivery.
    pub fn outcome(delivery: &DeliveryLease) -> (result: DeliveryOutcome)
        ensures
            result == receipts::indexing_outcome(delivery@),
    {
        receipt_outcome(delivery)
    }
}

/// The runner is asked for what the plan holds, once, and for nothing where it holds nothing.
pub open spec fn executed<R: MempalaceRunner>(
    before: R,
    plan: MempalacePlanView,
    after: R,
    reply: Result<(), Seq<char>>,
) -> bool {
    match plan {
        MempalacePlanView::Ingest { request, .. } => before.answers(request, &after, reply),
        _ => after == before && reply == Ok::<(), Seq<char>>(()),
    }
}

impl<R: MempalaceRunner> MempalaceConsumer<R> {
    /// Applies a delivery, given the bytes that stand at the place of its receipt: the runner is
    /// called where the plan asks for it. What comes out is the receipt to write, or nothing
    /// where it stands already.
    pub fn apply(
        &mut self,
        delivery: &DeliveryLease,
        payload: &Option<CanonicalRevision>,
        input_path: &str,
        existing: Option<&[u8]>,
    ) -> (result: Result<Option<Vec<u8>>, MempalaceConsumerError>)
        ensures
            final(self).root() == old(self).root(),
            match planned(
                old(self).root(),
                delivery@,
                text::view_option(*payload),
                input_path@,
                text::view_option(existing),
            ) {
                Err(error) => {
                    &&& receipt_outcome_view(result) == Err::<
                        Option<Seq<u8>>,
                        MempalaceErrorView,
                    >(error)
                    &&& final(self).held_runner() == old(self).held_runner()
                },
                Ok(plan) => exists|reply: Result<(), Seq<char>>|
                    {
                        &&& receipt_outcome_view(result) == #[trigger] settled(plan, reply)
                        &&& executed(
                            old(self).held_runner(),
                            plan,
                            final(self).held_runner(),
                            reply,
                        )
                    },
            },
    {
        match self.plan(delivery, payload, input_path, existing) {
            Err(error) => Err(error),
            Ok(plan) => {
                let reply = match &plan {
                    MempalacePlan::Ingest { request, receipt } => self.runner.ingest(request),
                    _ => Ok(()),
                };
                let ghost answer = reply_view(reply);
                let ghost asked = plan@;
                let result = settle(plan, reply);
                assert(receipt_outcome_view(result) == settled(asked, answer));
                result
            },
        }
    }
}

/// Applying a delivery again after its receipt was written asks the index for nothing.
pub proof fn law_second_application_is_silent(
    root: Seq<char>,
    lease: LeaseView,
    payload: Option<RevisionView>,
    input_path: Seq<char>,
    reply: Result<(), Seq<char>>,
    again: Seq<char>,
    written: Seq<u8>,
)
    requires
        planned(root, lease, payload, input_path, None) is Ok,
        settled(planned(root, lease, payload, input_path, None)->Ok_0, reply) == Ok::<
            Option<Seq<u8>>,
            MempalaceErrorView,
        >(Some(written)),
    ensures
        planned(root, lease, payload, again, Some(written)) == Ok::<
            MempalacePlanView,
            MempalaceErrorView,
        >(MempalacePlanView::Done),
{
}

/// No receipt is written for an ingestion that failed.
pub proof fn law_failed_ingestion_leaves_no_receipt(
    request: IngestView,
    receipt: Seq<u8>,
    reason: Seq<char>,
)
    ensures
        settled(MempalacePlanView::Ingest { request, receipt }, Err(reason)) is Err,
{
}

} // verus!
