//! The learned-memory consumer: its configuration, its retain requests and its receipts.
use vstd::prelude::*;

use crate::delivery::{DeliveryLease, LeaseView};
use crate::domain;
use crate::domain::{
    CanonicalRevision, DeliveryOutcome, DomainError, DomainErrorView, RevisionView,
};
use crate::ident;
use crate::json;
use crate::json::{parse_bytes, parse_text, text_member, Json, JsonObject, JsonView};
use crate::paths;
use crate::paths::{final_component, is_absolute};
use crate::receipts;
use crate::receipts::{
    check_payload, event_idempotency_key, find_receipt_place, make_location, make_payload,
    make_sequence, receipt_outcome, record_source_id, write_json_line, PayloadFault,
};
use crate::text;
use crate::text::{
    chars_of, concat2, concat3, debug_text, decimal_text, end_without, label_ok, same_text,
    start_without, starts_with, text_of, trimmed, without_end,
};
use crate::transcript;
use crate::transcript::{copy_optional, copy_text, parse_codex_transcript, CodexTranscript};

verus! {

/// Why the consumer refused to render, send or record a delivery.
#[derive(Debug, Eq, PartialEq)]
pub enum HindsightConsumerError {
    /// Reading or writing failed, with the reason.
    Io(String),
    Domain(DomainError),
    InvalidConfiguration(String),
    ProvenanceMismatch,
    MissingPayload,
    UnexpectedPayload,
    InvalidTranscript(String),
    InvalidReceipt(String),
    /// A receipt of other provenance stands at this path.
    IdempotencyConflict(String),
    Runner(String),
}

/// A `HindsightConsumerError` with its texts as character sequences.
pub enum HindsightErrorView {
    Io(Seq<char>),
    Domain(DomainErrorView),
    InvalidConfiguration(Seq<char>),
    ProvenanceMismatch,
    MissingPayload,
    UnexpectedPayload,
    InvalidTranscript(Seq<char>),
    InvalidReceipt(Seq<char>),
    IdempotencyConflict(Seq<char>),
    Runner(Seq<char>),
}

impl View for HindsightConsumerError {
    type V = HindsightErrorView;

    open spec fn view(&self) -> HindsightErrorView {
        match *self {
            HindsightConsumerError::Io(m) => HindsightErrorView::Io(m@),
            HindsightConsumerError::Domain(error) => HindsightErrorView::Domain(error@),
            HindsightConsumerError::InvalidConfiguration(m) => {
                HindsightErrorView::InvalidConfiguration(m@)
            },
            HindsightConsumerError::ProvenanceMismatch => HindsightErrorView::ProvenanceMismatch,
            HindsightConsumerError::MissingPayload => HindsightErrorView::MissingPayload,
            HindsightConsumerError::UnexpectedPayload => HindsightErrorView::UnexpectedPayload,
            HindsightConsumerError::InvalidTranscript(m) => {
                HindsightErrorView::InvalidTranscript(m@)
            },
            HindsightConsumerError::InvalidReceipt(m) => HindsightErrorView::InvalidReceipt(m@),
            HindsightConsumerError::IdempotencyConflict(path) => {
                HindsightErrorView::IdempotencyConflict(path@)
            },
            HindsightConsumerError::Runner(m) => HindsightErrorView::Runner(m@),
        }
    }
}

/// The message of a consumer error.
pub open spec fn hindsight_message(error: HindsightErrorView) -> Seq<char> {
    match error {
        HindsightErrorView::Io(m) => m,
        HindsightErrorView::Domain(inner) => crate::domain::domain_message(inner),
        HindsightErrorView::InvalidConfiguration(m) => {
            "invalid Hindsight consumer configuration: "@ + m
        },
        HindsightErrorView::ProvenanceMismatch => {
            "leased payload does not match its declared revision"@
        },
        HindsightErrorView::MissingPayload => "byte-bearing delivery has no materialized payload"@,
        HindsightErrorView::UnexpectedPayload => {
            "metadata-only delivery unexpectedly has a payload"@
        },
        HindsightErrorView::InvalidTranscript(m) => {
            "Codex transcript cannot be safely rendered for Hindsight: "@ + m
        },
        HindsightErrorView::InvalidReceipt(m) => "existing Hindsight receipt is malformed: "@ + m,
        HindsightErrorView::IdempotencyConflict(path) => {
            "existing Hindsight receipt conflicts with delivery provenance: "@ + path
        },
        HindsightErrorView::Runner(m) => "Hindsight runner failed: "@ + m,
    }
}

impl HindsightConsumerError {
    /// The message for an operator.
    pub fn message(&self) -> (result: String)
        ensures
            result@ == hindsight_message(self@),
    {
        match self {
            HindsightConsumerError::Io(m) => m.clone(),
            HindsightConsumerError::Domain(inner) => inner.message(),
            HindsightConsumerError::InvalidConfiguration(m) => {
                concat2("invalid Hindsight consumer configuration: ", m.as_str())
            },
            HindsightConsumerError::ProvenanceMismatch => {
                "leased payload does not match its declared revision".to_owned()
            },
            HindsightConsumerError::MissingPayload => {
                "byte-bearing delivery has no materialized payload".to_owned()
            },
            HindsightConsumerError::UnexpectedPayload => {
                "metadata-only delivery unexpectedly has a payload".to_owned()
            },
            HindsightConsumerError::InvalidTranscript(m) => {
                concat2("Codex transcript cannot be safely rendered for Hindsight: ", m.as_str())
            },
            HindsightConsumerError::InvalidReceipt(m) => {
                concat2("existing Hindsight receipt is malformed: ", m.as_str())
            },
            HindsightConsumerError::IdempotencyConflict(path) => {
                concat2(
                    "existing Hindsight receipt conflicts with delivery provenance: ",
                    path.as_str(),
                )
            },
            HindsightConsumerError::Runner(m) => concat2("Hindsight runner failed: ", m.as_str()),
        }
    }
}

/// How source facts may be grouped when observations are consolidated.
#[derive(Clone, Copy, Debug, Eq, PartialEq, Structural)]
pub enum HindsightObservationScopes {
    PerTag,
    Combined,
    AllCombinations,
    Shared,
}

/// The name of an observation scope.
pub open spec fn scopes_name(scopes: HindsightObservationScopes) -> Seq<char> {
    match scopes {
        HindsightObservationScopes::PerTag => "per_tag"@,
        HindsightObservationScopes::Combined => "combined"@,
        HindsightObservationScopes::AllCombinations => "all_combinations"@,
        HindsightObservationScopes::Shared => "shared"@,
    }
}

impl HindsightObservationScopes {
    pub fn name(self) -> (result: &'static str)
        ensures
            result@ == scopes_name(self),
    {
        match self {
            HindsightObservationScopes::PerTag => "per_tag",
            HindsightObservationScopes::Combined => "combined",
            HindsightObservationScopes::AllCombinations => "all_combinations",
            HindsightObservationScopes::Shared => "shared",
        }
    }

    /// The scope of that name; `default` leaves the choice to the server.
    pub fn from_name(value: &str) -> (result: Result<
        Option<HindsightObservationScopes>,
        HindsightConsumerError,
    >)
        ensures
            match result {
                Ok(Some(scopes)) => value@ == scopes_name(scopes),
                Ok(None) => value@ == "default"@,
                Err(error) => {
                    &&& value@ != "default"@
                    &&& forall|scopes: HindsightObservationScopes|
                        value@ != #[trigger] scopes_name(scopes)
                    &&& error@ == HindsightErrorView::InvalidConfiguration(
                        "unknown Hindsight observation scopes "@ + text::debug_form(value@)
                            + "; expected default, per_tag, combined, all_combinations, or shared"@,
                    )
                },
            },
    {
        if same_text(value, "default") {
            Ok(None)
        } else if same_text(value, "per_tag") {
            Ok(Some(HindsightObservationScopes::PerTag))
        } else if same_text(value, "combined") {
            Ok(Some(HindsightObservationScopes::Combined))
        } else if same_text(value, "all_combinations") {
            Ok(Some(HindsightObservationScopes::AllCombinations))
        } else if same_text(value, "shared") {
            Ok(Some(HindsightObservationScopes::Shared))
        } else {
            Err(
                HindsightConsumerError::InvalidConfiguration(
                    concat3(
                        "unknown Hindsight observation scopes ",
                        debug_text(value).as_str(),
                        "; expected default, per_tag, combined, all_combinations, or shared",
                    ),
                ),
            )
        }
    }
}

/// Distinct observation scopes have distinct names, and none is called `default`.
pub proof fn law_scopes_name_injective(a: HindsightObservationScopes, b: HindsightObservationScopes)
    ensures
        scopes_name(a) == scopes_name(b) ==> a == b,
        scopes_name(a) != "default"@,
{
    reveal_strlit("per_tag");
    reveal_strlit("combined");
    reveal_strlit("all_combinations");
    reveal_strlit("shared");
    reveal_strlit("default");
    assert("per_tag"@.len() == 7 && "combined"@.len() == 8 && "all_combinations"@.len() == 16
        && "shared"@.len() == 6 && "default"@.len() == 7);
    assert("per_tag"@[0] == 'p' && "default"@[0] == 'd');
}

/// How a transcript is rendered before it is retained.
#[derive(Clone, Copy, Debug, Eq, PartialEq, Structural)]
pub enum HindsightRenderProfile {
    LegacyV1,
    ReferenceMessage,
    ReferenceToolAware,
}

/// The name of a render profile.
pub open spec fn profile_name(profile: HindsightRenderProfile) -> Seq<char> {
    match profile {
        HindsightRenderProfile::LegacyV1 => "legacy-v1"@,
        HindsightRenderProfile::ReferenceMessage => "reference-message-v2"@,
        HindsightRenderProfile::ReferenceToolAware => "reference-tool-aware-v2"@,
    }
}

impl HindsightRenderProfile {
    pub fn name(self) -> (result: &'static str)
        ensures
            result@ == profile_name(self),
    {
        match self {
            HindsightRenderProfile::LegacyV1 => "legacy-v1",
            HindsightRenderProfile::ReferenceMessage => "reference-message-v2",
            HindsightRenderProfile::ReferenceToolAware => "reference-tool-aware-v2",
        }
    }

    pub fn from_name(value: &str) -> (result: Result<HindsightRenderProfile, HindsightConsumerError>)
        ensures
            match result {
                Ok(profile) => value@ == profile_name(profile),
                Err(error) => {
                    &&& forall|profile: HindsightRenderProfile|
                        value@ != #[trigger] profile_name(profile)
                    &&& error@ == HindsightErrorView::InvalidConfiguration(
                        "unknown Hindsight render profile "@ + text::debug_form(value@)
                            + "; expected legacy-v1, reference-message-v2, or reference-tool-aware-v2"@,
                    )
                },
            },
    {
        if same_text(value, "legacy-v1") {
            Ok(HindsightRenderProfile::LegacyV1)
        } else if same_text(value, "reference-message-v2") {
            Ok(HindsightRenderProfile::ReferenceMessage)
        } else if same_text(value, "reference-tool-aware-v2") {
            Ok(HindsightRenderProfile::ReferenceToolAware)
        } else {
            Err(
                HindsightConsumerError::InvalidConfiguration(
                    concat3(
                        "unknown Hindsight render profile ",
                        debug_text(value).as_str(),
                        "; expected legacy-v1, reference-message-v2, or reference-tool-aware-v2",
                    ),
                ),
            )
        }
    }
}

/// Distinct render profiles have distinct names.
pub proof fn law_profile_name_injective(a: HindsightRenderProfile, b: HindsightRenderProfile)
    ensures
        profile_name(a) == profile_name(b) ==> a == b,
{
    reveal_strlit("legacy-v1");
    reveal_strlit("reference-message-v2");
    reveal_strlit("reference-tool-aware-v2");
    assert("legacy-v1"@.len() == 9 && "reference-message-v2"@.len() == 20
        && "reference-tool-aware-v2"@.len() == 23);
}

/// How the memory service is reached.
#[derive(Debug)]
pub struct HindsightHttpConfig {
    base_url: String,
    timeout_seconds: u64,
    timeout_nanoseconds: u32,
}

/// How the memory service is reached.
#[verifier::ext_equal]
pub struct HttpView {
    pub base_url: Seq<char>,
    pub timeout_seconds: u64,
    pub timeout_nanoseconds: u32,
}

impl View for HindsightHttpConfig {
    type V = HttpView;

    closed spec fn view(&self) -> HttpView {
        HttpView {
            base_url: self.base_url@,
            timeout_seconds: self.timeout_seconds,
            timeout_nanoseconds: self.timeout_nanoseconds,
        }
    }
}

/// A trimmed URL over HTTP.
pub open spec fn is_http_url(url: Seq<char>) -> bool {
    &&& text::is_label(url)
    &&& text::occurs_at(url, "http://"@, 0) || text::occurs_at(url, "https://"@, 0)
}

/// What is wrong with an HTTP configuration.
pub open spec fn http_refusal(url: Seq<char>, seconds: u64, nanoseconds: u32) -> Option<
    HindsightErrorView,
> {
    if !is_http_url(url) {
        Some(
            HindsightErrorView::InvalidConfiguration(
                "Hindsight base URL must be a non-empty, trimmed http(s) URL"@,
            ),
        )
    } else if seconds == 0 && nanoseconds == 0 {
        Some(
            HindsightErrorView::InvalidConfiguration(
                "Hindsight HTTP timeout must be greater than zero"@,
            ),
        )
    } else {
        None
    }
}

/// The address of a bank's memories.
pub open spec fn endpoint_of(base_url: Seq<char>, bank_id: Seq<char>) -> Seq<char> {
    base_url + "/v1/default/banks/"@ + bank_id + "/memories"@
}

impl HindsightHttpConfig {
    /// A configuration with a base URL and a time limit in seconds and nanoseconds.
    pub fn new(base_url: &str, timeout_seconds: u64, timeout_nanoseconds: u32) -> (result: Result<
        HindsightHttpConfig,
        HindsightConsumerError,
    >)
        ensures
            match result {
                Ok(config) => {
                    &&& http_refusal(base_url@, timeout_seconds, timeout_nanoseconds) is None
                    &&& config@ == (HttpView {
                        base_url: text::strip_end(base_url@, '/'),
                        timeout_seconds,
                        timeout_nanoseconds,
                    })
                },
                Err(error) => http_refusal(base_url@, timeout_seconds, timeout_nanoseconds) == Some(
                    error@,
                ),
            },
    {
        if !label_ok(base_url) || !(starts_with(base_url, "http://") || starts_with(
            base_url,
            "https://",
        )) {
            return Err(
                HindsightConsumerError::InvalidConfiguration(
                    "Hindsight base URL must be a non-empty, trimmed http(s) URL".to_owned(),
                ),
            );
        }
        if timeout_seconds == 0 && timeout_nanoseconds == 0 {
            return Err(
                HindsightConsumerError::InvalidConfiguration(
                    "Hindsight HTTP timeout must be greater than zero".to_owned(),
                ),
            );
        }
        Ok(
            HindsightHttpConfig {
                base_url: without_end(base_url, '/'),
                timeout_seconds,
                timeout_nanoseconds,
            },
        )
    }

    /// The address of a bank's memories.
    pub fn endpoint(&self, bank_id: &str) -> (result: String)
        ensures
            result@ == endpoint_of(self@.base_url, bank_id@),
    {
        let head = concat3(self.base_url.as_str(), "/v1/default/banks/", bank_id);
        concat2(head.as_str(), "/memories")
    }

    pub fn timeout_seconds(&self) -> (result: u64)
        ensures
            result == self@.timeout_seconds,
    {
        self.timeout_seconds
    }

    pub fn timeout_nanoseconds(&self) -> (result: u32)
        ensures
            result == self@.timeout_nanoseconds,
    {
        self.timeout_nanoseconds
    }
}

/// One name with its text.
#[derive(Debug)]
struct MetadataEntry {
    name: String,
    value: String,
}

/// Texts by name, one for each.
#[derive(Debug)]
pub struct Metadata {
    entries: Vec<MetadataEntry>,
}

spec fn entries_view(entries: Seq<MetadataEntry>) -> Map<Seq<char>, Seq<char>>
    decreases entries.len(),
{
    if entries.len() == 0 {
        Map::empty()
    } else {
        entries_view(entries.drop_last()).insert(entries.last().name@, entries.last().value@)
    }
}

impl View for Metadata {
    type V = Map<Seq<char>, Seq<char>>;

    closed spec fn view(&self) -> Map<Seq<char>, Seq<char>> {
        entries_view(self.entries@)
    }
}

/// Texts as JSON texts.
pub open spec fn texts_json(texts: Map<Seq<char>, Seq<char>>) -> JsonView {
    JsonView::Object(texts.map_values(|t: Seq<char>| JsonView::Text(t)))
}

impl Metadata {
    pub fn new() -> (result: Metadata)
        ensures
            result@ == Map::<Seq<char>, Seq<char>>::empty(),
    {
        Metadata { entries: Vec::new() }
    }

    /// These texts with `name` set to `value`.
    pub fn with(self, name: &str, value: &str) -> (result: Metadata)
        ensures
            result@ == self@.insert(name@, value@),
    {
        let mut entries = self.entries;
        let entry = MetadataEntry { name: name.to_owned(), value: value.to_owned() };
        assert(entries@.push(entry).drop_last() =~= entries@);
        entries.push(entry);
        Metadata { entries }
    }

    /// The text called `name`.
    pub fn get(&self, name: &str) -> (result: Option<&str>)
        ensures
            text::view_option(result) == (if self@.dom().contains(name@) {
                Some(self@[name@])
            } else {
                None
            }),
    {
        let ghost all = self.entries@;
        let mut i: usize = self.entries.len();
        assert(all.take(all.len() as int) =~= all);
        while i > 0
            invariant
                i <= all.len(),
                all == self.entries@,
                self@.dom().contains(name@) == entries_view(all.take(i as int)).dom().contains(
                    name@,
                ),
                self@.dom().contains(name@) ==> self@[name@] == entries_view(
                    all.take(i as int),
                )[name@],
            decreases i,
        {
            i -= 1;
            assert(all.take(i + 1).drop_last() =~= all.take(i as int));
            if same_text(self.entries[i].name.as_str(), name) {
                return Some(self.entries[i].value.as_str());
            }
        }
        None
    }

    /// The texts as a JSON object.
    pub fn to_json(&self) -> (result: Json)
        ensures
            result@ == texts_json(self@),
    {
        let ghost all = self.entries@;
        let mut object = JsonObject::new();
        let mut i: usize = 0;
        assert(object@ =~= entries_view(all.take(0)).map_values(
            |t: Seq<char>| JsonView::Text(t),
        ));
        while i < self.entries.len()
            invariant
                0 <= i <= all.len(),
                all == self.entries@,
                object@ == entries_view(all.take(i as int)).map_values(
                    |t: Seq<char>| JsonView::Text(t),
                ),
            decreases all.len() - i,
        {
            let ghost before = entries_view(all.take(i as int));
            assert(all.take(i + 1).drop_last() =~= all.take(i as int));
            object = object.with_text(
                self.entries[i].name.as_str(),
                self.entries[i].value.as_str(),
            );
            proof {
                let name = all[i as int].name@;
                let value = all[i as int].value@;
                assert(entries_view(all.take(i + 1)) == before.insert(name, value));
                assert(object@ =~= before.insert(name, value).map_values(
                    |t: Seq<char>| JsonView::Text(t),
                ));
            }
            i += 1;
        }
        assert(all.take(all.len() as int) =~= all);
        object.finish()
    }
}

/// A complete, replayable retain call for one record revision.
#[derive(Debug)]
pub struct HindsightRetainRequest {
    pub bank_id: String,
    pub document_id: String,
    pub source_id: String,
    pub content: String,
    pub context: String,
    pub timestamp: Option<String>,
    pub metadata: Metadata,
    pub tags: Vec<String>,
    pub observation_scopes: Option<HindsightObservationScopes>,
}

/// A complete, replayable retain call for one record revision.
#[verifier::ext_equal]
pub struct RetainView {
    pub bank_id: Seq<char>,
    pub document_id: Seq<char>,
    pub source_id: Seq<char>,
    pub content: Seq<char>,
    pub context: Seq<char>,
    pub timestamp: Option<Seq<char>>,
    pub metadata: Map<Seq<char>, Seq<char>>,
    pub tags: Seq<Seq<char>>,
    pub observation_scopes: Option<HindsightObservationScopes>,
}

impl View for HindsightRetainRequest {
    type V = RetainView;

    open spec fn view(&self) -> RetainView {
        RetainView {
            bank_id: self.bank_id@,
            document_id: self.document_id@,
            source_id: self.source_id@,
            content: self.content@,
            context: self.context@,
            timestamp: text::view_option(self.timestamp),
            metadata: self.metadata@,
            tags: text::views(self.tags@),
            observation_scopes: self.observation_scopes,
        }
    }
}

/// The part of a retain result that a receipt keeps.
#[derive(Debug, Eq, PartialEq)]
pub struct HindsightRetainResponse {
    pub operation_id: Option<String>,
}

/// Executes one retain request.
pub trait HindsightRunner {
    /// Whether the runner, asked for this, may answer so and be left so. A runner says for itself
    /// what that is; one that says nothing may answer anything.
    open spec fn answers(
        &self,
        request: RetainView,
        after: &Self,
        reply: Result<Option<Seq<char>>, Seq<char>>,
    ) -> bool {
        true
    }

    fn retain(&mut self, request: &HindsightRetainRequest) -> (reply: Result<
        HindsightRetainResponse,
        String,
    >)
        ensures
            old(self).answers(request@, final(self), reply_view(reply)),
    ;
}

/// A text as JSON, or null in its absence.
pub open spec fn text_or_null(content: Option<Seq<char>>) -> JsonView {
    match content {
        Some(content) => JsonView::Text(content),
        None => JsonView::Null,
    }
}

/// The body of a retain call.
pub open spec fn retain_json(request: RetainView) -> JsonView {
    let item = receipts::blank().insert("content"@, JsonView::Text(request.content)).insert(
        "context"@,
        JsonView::Text(request.context),
    ).insert("document_id"@, JsonView::Text(request.document_id)).insert(
        "metadata"@,
        texts_json(request.metadata),
    ).insert(
        "tags"@,
        JsonView::Array(request.tags.map_values(|t: Seq<char>| JsonView::Text(t))),
    ).insert("timestamp"@, text_or_null(request.timestamp)).insert(
        "update_mode"@,
        JsonView::Text("replace"@),
    );
    let item = match request.observation_scopes {
        Some(scopes) => item.insert("observation_scopes"@, JsonView::Text(scopes_name(scopes))),
        None => item,
    };
    JsonView::Object(
        receipts::blank().insert("async"@, JsonView::Bool(false)).insert(
            "items"@,
            JsonView::Array(seq![JsonView::Object(item)]),
        ),
    )
}

fn make_text_or_null(content: Option<&str>) -> (result: Json)
    ensures
        result@ == text_or_null(text::view_option(content)),
{
    match content {
        Some(content) => Json::Text(content.to_owned()),
        None => Json::Null,
    }
}

/// A borrowed optional text.
fn borrow_text(content: &Option<String>) -> (result: Option<&str>)
    ensures
        text::view_option(result) == text::view_option(*content),
{
    match content {
        Some(content) => Some(content.as_str()),
        None => None,
    }
}

fn make_texts(texts: &Vec<String>) -> (result: Json)
    ensures
        result@ == JsonView::Array(
            text::views(texts@).map_values(|t: Seq<char>| JsonView::Text(t)),
        ),
{
    let ghost expected = text::views(texts@).map_values(|t: Seq<char>| JsonView::Text(t));
    let mut items: Vec<Json> = Vec::new();
    let mut i: usize = 0;
    assert(expected.take(0) =~= Seq::empty());
    while i < texts.len()
        invariant
            0 <= i <= texts@.len(),
            expected == text::views(texts@).map_values(|t: Seq<char>| JsonView::Text(t)),
            json::items_view(items@) == expected.take(i as int),
        decreases texts@.len() - i,
    {
        let item = Json::Text(texts[i].clone());
        proof {
            json::lemma_items_push(items@, item);
            assert(expected.take(i + 1) =~= expected.take(i as int).push(expected[i as int]));
            assert(expected[i as int] == JsonView::Text(texts@[i as int]@));
        }
        items.push(item);
        i += 1;
    }
    assert(expected.take(texts@.len() as int) =~= expected);
    Json::Array(items)
}

/// The body of a retain call.
pub fn retain_body(request: &HindsightRetainRequest) -> (result: String)
    ensures
        result@ == json::json_text(retain_json(request@)),
{
    let item = JsonObject::new().with_text("content", request.content.as_str()).with_text(
        "context",
        request.context.as_str(),
    ).with_text("document_id", request.document_id.as_str()).with(
        "metadata",
        request.metadata.to_json(),
    ).with("tags", make_texts(&request.tags)).with(
        "timestamp",
        make_text_or_null(borrow_text(&request.timestamp)),
    ).with_text("update_mode", "replace");
    let item = match request.observation_scopes {
        Some(scopes) => item.with_text("observation_scopes", scopes.name()),
        None => item,
    };
    let mut items: Vec<Json> = Vec::new();
    let item = item.finish();
    proof {
        json::lemma_items_push(items@, item);
    }
    items.push(item);
    assert(json::items_view(items@) =~= seq![item@]);
    let body = JsonObject::new().with("async", Json::Bool(false)).with(
        "items",
        Json::Array(items),
    ).finish();
    body.to_text()
}

/// What the answer to a retain call means.
pub open spec fn retain_reply(status: nat, body: Seq<char>, value: Result<JsonView, Seq<char>>) -> Result<
    Option<Seq<char>>,
    Seq<char>,
> {
    match value {
        Err(reason) => Err(
            "Hindsight returned invalid JSON ("@ + text::decimal(status) + "): "@ + reason,
        ),
        Ok(value) => if json::get(value, "success"@) == Some(JsonView::Bool(false)) {
            Err("Hindsight rejected retain request ("@ + text::decimal(status) + "): "@ + body)
        } else {
            Ok(json::text_in(Some(value), "operation_id"@))
        },
    }
}

/// A reply with its texts as character sequences.
pub open spec fn reply_view(reply: Result<HindsightRetainResponse, String>) -> Result<
    Option<Seq<char>>,
    Seq<char>,
> {
    match reply {
        Ok(response) => Ok(text::view_option(response.operation_id)),
        Err(reason) => Err(reason@),
    }
}

/// What the answer to a retain call means, once its body was read as JSON.
pub fn judge_response(status: u16, body: &str, value: &Result<Json, String>) -> (result: Result<
    HindsightRetainResponse,
    String,
>)
    ensures
        reply_view(result) == retain_reply(
            status as nat,
            body@,
            match *value {
                Ok(value) => Ok(value@),
                Err(reason) => Err(reason@),
            },
        ),
{
    let status_text = decimal_text(status as u64);
    match value {
        Err(reason) => {
            let head = concat3("Hindsight returned invalid JSON (", status_text.as_str(), "): ");
            Err(concat2(head.as_str(), reason.as_str()))
        },
        Ok(value) => {
            let success = match value.get("success") {
                Some(success) => success.as_bool(),
                None => None,
            };
            match success {
                Some(false) => {
                    let head = concat3(
                        "Hindsight rejected retain request (",
                        status_text.as_str(),
                        "): ",
                    );
                    Err(concat2(head.as_str(), body))
                },
                _ => Ok(
                    HindsightRetainResponse {
                        operation_id: copy_text(text_member(Some(value), "operation_id")),
                    },
                ),
            }
        },
    }
}

/// What the answer to a retain call means.
pub fn read_response(status: u16, body: &str) -> (result: Result<HindsightRetainResponse, String>)
    ensures
        reply_view(result) == retain_reply(status as nat, body@, json::json_of_text(body@)),
{
    let value = parse_text(body);
    judge_response(status, body, &value)
}

/// What an answer with an error status means.
pub fn http_status_error(status: u16, body: &str) -> (result: String)
    ensures
        result@ == "Hindsight returned HTTP "@ + text::decimal(status as nat) + ": "@ + text::trim(
            body@,
        ),
{
    let head = concat3("Hindsight returned HTTP ", decimal_text(status as u64).as_str(), ": ");
    concat2(head.as_str(), trimmed(body).as_str())
}

/// What the absence of an answer means.
pub fn http_transport_error(reason: &str) -> (result: String)
    ensures
        result@ == "could not reach Hindsight: "@ + reason@,
{
    concat2("could not reach Hindsight: ", reason)
}

/// A character that a tag keeps.
pub open spec fn tag_char(c: char) -> char {
    if ('a' <= c && c <= 'z') || ('A' <= c && c <= 'Z') || ('0' <= c && c <= '9') || c == '-' || c
        == '_' {
        ident::ascii_lower(c)
    } else {
        '-'
    }
}

/// A workspace name as a tag: lower-case letters, digits, dashes and underscores, without dashes
/// at its ends, and no longer than 80 characters.
pub open spec fn tag_of(name: Seq<char>) -> Seq<char> {
    let bare = text::strip_end(text::strip_start(name.map_values(|c: char| tag_char(c)), '-'), '-');
    if bare.len() <= 80 {
        bare
    } else {
        bare.take(80)
    }
}

fn make_tag_char(c: char) -> (result: char)
    ensures
        result == tag_char(c),
{
    if 'A' <= c && c <= 'Z' {
        ((c as u8) + 32) as char
    } else if ('a' <= c && c <= 'z') || ('0' <= c && c <= '9') || c == '-' || c == '_' {
        c
    } else {
        '-'
    }
}

/// A workspace name as a tag.
pub fn workspace_tag(name: &str) -> (result: String)
    ensures
        result@ == tag_of(name@),
{
    let chars = chars_of(name);
    let ghost expected = name@.map_values(|c: char| tag_char(c));
    let mut mapped: Vec<char> = Vec::new();
    let mut i: usize = 0;
    while i < chars.len()
        invariant
            0 <= i <= chars@.len(),
            chars@ == name@,
            expected == name@.map_values(|c: char| tag_char(c)),
            mapped@ == expected.take(i as int),
        decreases chars@.len() - i,
    {
        assert(expected.take(i + 1) =~= expected.take(i as int).push(expected[i as int]));
        mapped.push(make_tag_char(chars[i]));
        i += 1;
    }
    assert(mapped@ =~= expected);
    let total: usize = mapped.len();
    let start: usize = start_without(&mapped, '-');
    let end: usize = end_without(&mapped, start, total, '-');
    if end - start <= 80 {
        text_of(&mapped, start, end)
    } else {
        assert(mapped@.subrange(start as int, end as int).take(80) =~= mapped@.subrange(
            start as int,
            start + 80,
        ));
        text_of(&mapped, start, start + 80)
    }
}

/// The tag of the workspace that a session ran in.
pub open spec fn workspace_of(cwd: Option<Seq<char>>) -> Seq<char> {
    match cwd {
        Some(cwd) => match paths::file_name(cwd) {
            Some(name) => tag_of(name),
            None => "unknown"@,
        },
        None => "unknown"@,
    }
}

/// The provenance that goes with a retain call, whatever the session says of itself.
pub open spec fn base_metadata(
    lease: LeaseView,
    revision: RevisionView,
    profile: HindsightRenderProfile,
    stats: transcript::StatsView,
) -> Map<Seq<char>, Seq<char>> {
    Map::<Seq<char>, Seq<char>>::empty().insert("source_id"@, receipts::source_id(lease)).insert(
        "record_id"@,
        ident::uuid_text(lease.record_id.id),
    ).insert("record_version"@, text::decimal(lease.record_version as nat)).insert(
        "event_id"@,
        ident::uuid_text(lease.event_id.id),
    ).insert("revision_algorithm"@, "blake3-256"@).insert(
        "revision_digest"@,
        text::hex(revision.digest),
    ).insert("revision_byte_length"@, text::decimal(revision.byte_length as nat)).insert(
        "renderer_profile"@,
        profile_name(profile),
    ).insert("renderer_version"@, "2"@).insert(
        "render_source_messages"@,
        text::decimal(stats.source),
    ).insert("render_included_messages"@, text::decimal(stats.included)).insert(
        "render_filtered_synthetic_messages"@,
        text::decimal(stats.synthetic),
    ).insert("render_stripped_memory_echoes"@, text::decimal(stats.echoes)).insert(
        "render_tool_calls"@,
        text::decimal(stats.calls),
    ).insert("render_tool_results"@, text::decimal(stats.results)).insert(
        "render_truncated_tool_results"@,
        text::decimal(stats.cut),
    )
}

/// The texts with one more where it is there.
pub open spec fn and_text(
    texts: Map<Seq<char>, Seq<char>>,
    name: Seq<char>,
    value: Option<Seq<char>>,
) -> Map<Seq<char>, Seq<char>> {
    match value {
        Some(value) => texts.insert(name, value),
        None => texts,
    }
}

/// The provenance that goes with a retain call.
pub open spec fn request_metadata(
    lease: LeaseView,
    revision: RevisionView,
    profile: HindsightRenderProfile,
    rendered: transcript::TranscriptView,
) -> Map<Seq<char>, Seq<char>> {
    let base = base_metadata(lease, revision, profile, rendered.stats);
    let sequenced = match lease.event_sequence {
        Some(sequence) => base.insert("event_sequence"@, text::decimal(sequence as nat)),
        None => base,
    };
    let located = match lease.location {
        Some(location) => sequenced.insert("root_role"@, location.root_role).insert(
            "source_relative_path"@,
            location.source_relative_path,
        ),
        None => sequenced,
    };
    and_text(
        and_text(located, "session_id"@, rendered.session_id),
        "session_cwd"@,
        rendered.session_cwd,
    )
}

/// The words that introduce a transcript.
pub open spec fn request_context(profile: HindsightRenderProfile, cwd: Option<Seq<char>>) -> Seq<char> {
    let legacy = profile is LegacyV1;
    let opening = if legacy {
        "Codex agent-session transcript"@
    } else {
        "Conversation between a human collaborator (User) and the Codex coding agent (Assistant)."@
    };
    match cwd {
        Some(cwd) => opening + (if legacy {
            " from workspace "@
        } else {
            " Workspace: "@
        }) + cwd,
        None => opening,
    }
}

/// The retain call for a rendered transcript.
pub open spec fn request_of(
    bank_id: Seq<char>,
    scopes: Option<HindsightObservationScopes>,
    profile: HindsightRenderProfile,
    lease: LeaseView,
    revision: RevisionView,
    rendered: transcript::TranscriptView,
) -> RetainView {
    RetainView {
        bank_id,
        document_id: receipts::source_id(lease),
        source_id: receipts::source_id(lease),
        content: rendered.content,
        context: request_context(profile, rendered.session_cwd),
        timestamp: rendered.last_timestamp,
        metadata: request_metadata(lease, revision, profile, rendered),
        tags: seq!["agent:codex"@, "workspace:"@ + workspace_of(rendered.session_cwd)],
        observation_scopes: scopes,
    }
}

fn make_metadata(
    delivery: &DeliveryLease,
    revision: &CanonicalRevision,
    profile: HindsightRenderProfile,
    rendered: &CodexTranscript,
) -> (result: Metadata)
    ensures
        result@ == request_metadata(delivery@, revision@, profile, rendered@),
{
    let stats = rendered.render_stats;
    let metadata = Metadata::new().with("source_id", record_source_id(delivery).as_str()).with(
        "record_id",
        delivery.record_id.as_uuid().to_text().as_str(),
    ).with("record_version", decimal_text(delivery.record_version).as_str()).with(
        "event_id",
        delivery.event_id.as_uuid().to_text().as_str(),
    ).with("revision_algorithm", CanonicalRevision::algorithm()).with(
        "revision_digest",
        revision.digest_hex().as_str(),
    ).with("revision_byte_length", decimal_text(revision.byte_length()).as_str()).with(
        "renderer_profile",
        profile.name(),
    ).with("renderer_version", "2").with(
        "render_source_messages",
        decimal_text(stats.source_messages).as_str(),
    ).with("render_included_messages", decimal_text(stats.included_messages).as_str()).with(
        "render_filtered_synthetic_messages",
        decimal_text(stats.filtered_synthetic_messages).as_str(),
    ).with(
        "render_stripped_memory_echoes",
        decimal_text(stats.stripped_memory_echoes).as_str(),
    ).with("render_tool_calls", decimal_text(stats.tool_calls).as_str()).with(
        "render_tool_results",
        decimal_text(stats.tool_results).as_str(),
    ).with(
        "render_truncated_tool_results",
        decimal_text(stats.truncated_tool_results).as_str(),
    );
    let metadata = match delivery.event_sequence {
        Some(sequence) => metadata.with("event_sequence", decimal_text(sequence).as_str()),
        None => metadata,
    };
    let metadata = match &delivery.location {
        Some(location) => metadata.with("root_role", location.root_role()).with(
            "source_relative_path",
            location.source_relative_path(),
        ),
        None => metadata,
    };
    let metadata = match &rendered.session_id {
        Some(id) => metadata.with("session_id", id.as_str()),
        None => metadata,
    };
    match &rendered.session_cwd {
        Some(cwd) => metadata.with("session_cwd", cwd.as_str()),
        None => metadata,
    }
}

fn make_context(profile: HindsightRenderProfile, cwd: Option<&str>) -> (result: String)
    ensures
        result@ == request_context(profile, text::view_option(cwd)),
{
    let (opening, link) = match profile {
        HindsightRenderProfile::LegacyV1 => ("Codex agent-session transcript", " from workspace "),
        _ => (
            "Conversation between a human collaborator (User) and the Codex coding agent (Assistant).",
            " Workspace: ",
        ),
    };
    match cwd {
        Some(cwd) => concat3(opening, link, cwd),
        None => opening.to_owned(),
    }
}

fn find_workspace(cwd: Option<&str>) -> (result: String)
    ensures
        result@ == workspace_of(text::view_option(cwd)),
{
    match cwd {
        Some(cwd) => match final_component(cwd) {
            Some(name) => workspace_tag(name.as_str()),
            None => "unknown".to_owned(),
        },
        None => "unknown".to_owned(),
    }
}

/// The retain call for a rendered transcript.
pub fn retain_request(
    delivery: &DeliveryLease,
    revision: &CanonicalRevision,
    bank_id: &str,
    render_profile: HindsightRenderProfile,
    observation_scopes: Option<HindsightObservationScopes>,
    rendered: &CodexTranscript,
) -> (result: HindsightRetainRequest)
    ensures
        result@ == request_of(
            bank_id@,
            observation_scopes,
            render_profile,
            delivery@,
            revision@,
            rendered@,
        ),
{
    let cwd = borrow_text(&rendered.session_cwd);
    let workspace = find_workspace(cwd);
    let mut tags: Vec<String> = Vec::new();
    tags.push("agent:codex".to_owned());
    tags.push(concat2("workspace:", workspace.as_str()));
    assert(text::views(tags@) =~= seq![
        "agent:codex"@,
        "workspace:"@ + workspace_of(rendered@.session_cwd),
    ]);
    HindsightRetainRequest {
        bank_id: bank_id.to_owned(),
        document_id: record_source_id(delivery),
        source_id: record_source_id(delivery),
        content: rendered.content.clone(),
        context: make_context(render_profile, cwd),
        timestamp: copy_optional(&rendered.last_timestamp),
        metadata: make_metadata(delivery, revision, render_profile, rendered),
        tags,
        observation_scopes,
    }
}

/// A character that a bank's identity may hold.
pub open spec fn bank_char(c: char) -> bool {
    ('a' <= c && c <= 'z') || ('A' <= c && c <= 'Z') || ('0' <= c && c <= '9') || c == '-' || c
        == '_' || c == '.'
}

/// An identity of a bank.
pub open spec fn is_bank_id(bank_id: Seq<char>) -> bool {
    &&& bank_id.len() > 0
    &&& forall|i: int| 0 <= i < bank_id.len() ==> bank_char(#[trigger] bank_id[i])
}

/// Why an identity of a bank is refused.
pub open spec fn bank_refusal() -> HindsightErrorView {
    HindsightErrorView::InvalidConfiguration(
        "Hindsight bank ID must be non-empty, trimmed, and use only ASCII letters, digits, '-', '_', or '.'"@,
    )
}

/// Refuses what is no identity of a bank.
pub fn validate_bank_id(bank_id: &str) -> (result: Result<(), HindsightConsumerError>)
    ensures
        match result {
            Ok(_) => is_bank_id(bank_id@),
            Err(error) => !is_bank_id(bank_id@) && error@ == bank_refusal(),
        },
{
    let chars = chars_of(bank_id);
    let mut valid: bool = chars.len() > 0;
    let mut i: usize = 0;
    while i < chars.len() && valid
        invariant
            0 <= i <= chars@.len(),
            chars@ == bank_id@,
            chars@.len() > 0 || !valid,
            valid ==> forall|j: int| 0 <= j < i ==> bank_char(#[trigger] chars@[j]),
            !valid ==> !is_bank_id(bank_id@),
        decreases chars@.len() - i,
    {
        let c: char = chars[i];
        valid = ('a' <= c && c <= 'z') || ('A' <= c && c <= 'Z') || ('0' <= c && c <= '9') || c
            == '-' || c == '_' || c == '.';
        assert(valid == bank_char(chars@[i as int]));
        i += 1;
    }
    if valid {
        Ok(())
    } else {
        Err(
            HindsightConsumerError::InvalidConfiguration(
                "Hindsight bank ID must be non-empty, trimmed, and use only ASCII letters, digits, '-', '_', or '.'".to_owned(),
            ),
        )
    }
}

/// What a consumer is set up with.
#[verifier::ext_equal]
pub struct ConsumerView {
    pub receipt_root: Seq<char>,
    pub bank_id: Seq<char>,
    pub profile: HindsightRenderProfile,
    pub scopes: Option<HindsightObservationScopes>,
}

/// What is wrong with a consumer's setup.
pub open spec fn consumer_refusal(root: Seq<char>, real_directory: bool, bank_id: Seq<char>) -> Option<
    HindsightErrorView,
> {
    if !paths::absolute(root) {
        Some(HindsightErrorView::InvalidConfiguration("Hindsight receipt root must be absolute"@))
    } else if !real_directory {
        Some(
            HindsightErrorView::InvalidConfiguration(
                "Hindsight receipt root must be a real directory"@,
            ),
        )
    } else if !is_bank_id(bank_id) {
        Some(bank_refusal())
    } else {
        None
    }
}

/// The error for a payload fault.
pub open spec fn fault_error(fault: PayloadFault) -> HindsightErrorView {
    match fault {
        PayloadFault::ProvenanceMismatch => HindsightErrorView::ProvenanceMismatch,
        PayloadFault::MissingPayload => HindsightErrorView::MissingPayload,
        PayloadFault::UnexpectedPayload => HindsightErrorView::UnexpectedPayload,
    }
}

/// The members of a delivery's receipt.
pub open spec fn receipt_members(
    consumer: ConsumerView,
    lease: LeaseView,
    payload: Option<RevisionView>,
    operation_id: Option<Seq<char>>,
) -> Map<Seq<char>, JsonView> {
    let receipt = receipts::blank().insert("format_version"@, JsonView::Unsigned(1)).insert(
        "consumer"@,
        JsonView::Text("hindsight"@),
    ).insert("subscription_id"@, JsonView::Text(ident::uuid_text(lease.subscription_id.id))).insert(
        "event_id"@,
        JsonView::Text(ident::uuid_text(lease.event_id.id)),
    ).insert("event_idempotency_key"@, JsonView::Text(receipts::idempotency_key(lease))).insert(
        "event_sequence"@,
        receipts::sequence_json(lease.event_sequence),
    ).insert("record_id"@, JsonView::Text(ident::uuid_text(lease.record_id.id))).insert(
        "record_version"@,
        JsonView::Unsigned(lease.record_version),
    ).insert("event_kind"@, JsonView::Text(domain::event_kind_name(lease.kind))).insert(
        "source_id"@,
        JsonView::Text(receipts::source_id(lease)),
    ).insert("document_id"@, JsonView::Text(receipts::source_id(lease))).insert(
        "bank_id"@,
        JsonView::Text(consumer.bank_id),
    ).insert("renderer_profile"@, JsonView::Text(profile_name(consumer.profile))).insert(
        "location"@,
        receipts::location_json(lease.location),
    ).insert("payload"@, receipts::payload_json(payload));
    let scoped = match consumer.scopes {
        Some(scopes) => receipt.insert("observation_scopes"@, JsonView::Text(scopes_name(scopes))),
        None => receipt,
    };
    scoped.insert("operation_id"@, text_or_null(operation_id))
}

/// The bytes of a delivery's receipt.
pub open spec fn receipt_line(
    consumer: ConsumerView,
    lease: LeaseView,
    payload: Option<RevisionView>,
    operation_id: Option<Seq<char>>,
) -> Seq<u8> {
    receipts::json_line(
        JsonView::Object(receipt_members(consumer, lease, payload, operation_id)),
    )
}

/// Whether a receipt's members are those of another but for the operation.
pub open spec fn same_provenance(
    existing: Map<Seq<char>, JsonView>,
    expected: Map<Seq<char>, JsonView>,
) -> bool {
    existing.remove("operation_id"@) == expected.remove("operation_id"@)
}

/// Whether two receipts are equal but for the operation.
pub fn receipt_matches(existing: &Json, expected: &Json) -> (result: bool)
    requires
        existing@ is Object,
        expected@ is Object,
    ensures
        result == same_provenance(existing@->Object_0, expected@->Object_0),
{
    match (JsonObject::of(existing), JsonObject::of(expected)) {
        (Some(existing), Some(expected)) => {
            let existing = existing.without("operation_id").finish();
            let expected = expected.without("operation_id").finish();
            existing.same(&expected)
        },
        _ => false,
    }
}

/// What a delivery comes to before the memory service is asked.
pub enum HindsightPlanView {
    /// The receipt stands already.
    Done,
    /// What stands at the receipt's place is JSON but no object.
    Unrecognized,
    /// Nothing is to be retained; the receipt is to be written.
    Record,
    /// The request is to be executed, and the receipt to be written after it succeeds.
    Retain { request: RetainView },
}

/// What the JSON that stands at a receipt's place means.
pub open spec fn judged(
    consumer: ConsumerView,
    lease: LeaseView,
    payload: Option<RevisionView>,
    existing: Result<JsonView, Seq<char>>,
) -> Result<HindsightPlanView, HindsightErrorView> {
    match existing {
        Err(reason) => Err(
            HindsightErrorView::InvalidReceipt("existing receipt is not valid JSON: "@ + reason),
        ),
        Ok(JsonView::Object(members)) => if same_provenance(
            members,
            receipt_members(consumer, lease, payload, None),
        ) {
            Ok(HindsightPlanView::Done)
        } else {
            Err(
                HindsightErrorView::IdempotencyConflict(
                    receipts::receipt_place(consumer.receipt_root, lease),
                ),
            )
        },
        Ok(_) => Ok(HindsightPlanView::Unrecognized),
    }
}

/// What a rendering asks for.
pub open spec fn asked(
    consumer: ConsumerView,
    lease: LeaseView,
    revision: RevisionView,
    rendered: Result<transcript::TranscriptView, HindsightErrorView>,
) -> Result<HindsightPlanView, HindsightErrorView> {
    match rendered {
        Ok(rendered) => Ok(
            HindsightPlanView::Retain {
                request: request_of(
                    consumer.bank_id,
                    consumer.scopes,
                    consumer.profile,
                    lease,
                    revision,
                    rendered,
                ),
            },
        ),
        Err(error) => Err(error),
    }
}

/// The revision of optional bytes.
pub open spec fn payload_revision(payload: Option<Seq<u8>>) -> Option<RevisionView> {
    match payload {
        Some(bytes) => Some(domain::revision_of(bytes)),
        None => None,
    }
}

/// What a delivery comes to before the memory service is asked.
pub open spec fn planned(
    consumer: ConsumerView,
    lease: LeaseView,
    payload: Option<Seq<u8>>,
    existing: Option<Seq<u8>>,
) -> Result<HindsightPlanView, HindsightErrorView> {
    let revision = payload_revision(payload);
    match receipts::payload_fault(lease.revision, revision) {
        Some(fault) => Err(fault_error(fault)),
        None => match (existing, payload) {
            (Some(found), _) => judged(consumer, lease, revision, json::json_of_bytes(found)),
            (None, Some(bytes)) => asked(
                consumer,
                lease,
                domain::revision_of(bytes),
                transcript::transcript_of_bytes(bytes, consumer.profile),
            ),
            (None, None) => Ok(HindsightPlanView::Record),
        },
    }
}

/// What is left to do once the memory service has answered.
pub enum HindsightStepView {
    /// The receipt stands already.
    Stands,
    /// What stands at the receipt's place is JSON but no object.
    Unrecognized,
    /// The receipt is to be written.
    Write { receipt: Seq<u8> },
}

/// What is left to do once the memory service has answered.
pub open spec fn settled(
    consumer: ConsumerView,
    lease: LeaseView,
    plan: HindsightPlanView,
    reply: Result<Option<Seq<char>>, Seq<char>>,
) -> Result<HindsightStepView, HindsightErrorView> {
    match plan {
        HindsightPlanView::Done => Ok(HindsightStepView::Stands),
        HindsightPlanView::Unrecognized => Ok(HindsightStepView::Unrecognized),
        HindsightPlanView::Record => Ok(
            HindsightStepView::Write {
                receipt: receipt_line(consumer, lease, lease.revision, None),
            },
        ),
        HindsightPlanView::Retain { .. } => match reply {
            Ok(operation_id) => Ok(
                HindsightStepView::Write {
                    receipt: receipt_line(consumer, lease, lease.revision, operation_id),
                },
            ),
            Err(reason) => Err(HindsightErrorView::Runner(reason)),
        },
    }
}

/// What a delivery comes to before the memory service is asked.
#[derive(Debug)]
pub enum HindsightPlan {
    Done,
    Unrecognized,
    Record,
    Retain { request: HindsightRetainRequest },
}

impl View for HindsightPlan {
    type V = HindsightPlanView;

    open spec fn view(&self) -> HindsightPlanView {
        match *self {
            HindsightPlan::Done => HindsightPlanView::Done,
            HindsightPlan::Unrecognized => HindsightPlanView::Unrecognized,
            HindsightPlan::Record => HindsightPlanView::Record,
            HindsightPlan::Retain { request } => HindsightPlanView::Retain { request: request@ },
        }
    }
}

/// A plan, or the error, with their texts as sequences.
pub open spec fn plan_view(result: Result<HindsightPlan, HindsightConsumerError>) -> Result<
    HindsightPlanView,
    HindsightErrorView,
> {
    match result {
        Ok(plan) => Ok(plan@),
        Err(error) => Err(error@),
    }
}

/// What is left to do once the memory service has answered.
#[derive(Debug)]
pub enum HindsightStep {
    Stands,
    Unrecognized,
    Write { receipt: Vec<u8> },
}

impl View for HindsightStep {
    type V = HindsightStepView;

    open spec fn view(&self) -> HindsightStepView {
        match *self {
            HindsightStep::Stands => HindsightStepView::Stands,
            HindsightStep::Unrecognized => HindsightStepView::Unrecognized,
            HindsightStep::Write { receipt } => HindsightStepView::Write { receipt: receipt@ },
        }
    }
}

/// What is left to do, or the error, with their texts as sequences.
pub open spec fn receipt_view(result: Result<HindsightStep, HindsightConsumerError>) -> Result<
    HindsightStepView,
    HindsightErrorView,
> {
    match result {
        Ok(step) => Ok(step@),
        Err(error) => Err(error@),
    }
}

/// A consumer of transcripts that keeps one receipt for each event below its root.
#[derive(Debug)]
pub struct HindsightConsumer<R> {
    receipt_root: String,
    bank_id: String,
    render_profile: HindsightRenderProfile,
    observation_scopes: Option<HindsightObservationScopes>,
    runner: R,
}

impl<R> View for HindsightConsumer<R> {
    type V = ConsumerView;

    closed spec fn view(&self) -> ConsumerView {
        ConsumerView {
            receipt_root: self.receipt_root@,
            bank_id: self.bank_id@,
            profile: self.render_profile,
            scopes: self.observation_scopes,
        }
    }
}

impl<R> HindsightConsumer<R> {
    /// A consumer in the legacy profile.
    pub fn new(receipt_root: &str, real_directory: bool, bank_id: &str, runner: R) -> (result: Result<
        HindsightConsumer<R>,
        HindsightConsumerError,
    >)
        ensures
            match result {
                Ok(consumer) => {
                    &&& consumer_refusal(receipt_root@, real_directory, bank_id@) is None
                    &&& consumer@ == (ConsumerView {
                        receipt_root: receipt_root@,
                        bank_id: bank_id@,
                        profile: HindsightRenderProfile::LegacyV1,
                        scopes: None,
                    })
                    &&& consumer.held_runner() == runner
                },
                Err(error) => consumer_refusal(receipt_root@, real_directory, bank_id@) == Some(
                    error@,
                ),
            },
    {
        Self::new_with_render_profile(
            receipt_root,
            real_directory,
            bank_id,
            HindsightRenderProfile::LegacyV1,
            runner,
        )
    }

    /// A consumer in the given profile.
    pub fn new_with_render_profile(
        receipt_root: &str,
        real_directory: bool,
        bank_id: &str,
        render_profile: HindsightRenderProfile,
        runner: R,
    ) -> (result: Result<HindsightConsumer<R>, HindsightConsumerError>)
        ensures
            match result {
                Ok(consumer) => {
                    &&& consumer_refusal(receipt_root@, real_directory, bank_id@) is None
                    &&& consumer@ == (ConsumerView {
                        receipt_root: receipt_root@,
                        bank_id: bank_id@,
                        profile: render_profile,
                        scopes: None,
                    })
                    &&& consumer.held_runner() == runner
                },
                Err(error) => consumer_refusal(receipt_root@, real_directory, bank_id@) == Some(
                    error@,
                ),
            },
    {
        Self::new_with_render_profile_and_observation_scopes(
            receipt_root,
            real_directory,
            bank_id,
            render_profile,
            None,
            runner,
        )
    }

    /// A consumer in the given profile that asks for the given scopes. The receipt root must be
    /// absolute, a directory, and no symbolic link.
    pub fn new_with_render_profile_and_observation_scopes(
        receipt_root: &str,
        real_directory: bool,
        bank_id: &str,
        render_profile: HindsightRenderProfile,
        observation_scopes: Option<HindsightObservationScopes>,
        runner: R,
    ) -> (result: Result<HindsightConsumer<R>, HindsightConsumerError>)
        ensures
            match result {
                Ok(consumer) => {
                    &&& consumer_refusal(receipt_root@, real_directory, bank_id@) is None
                    &&& consumer@ == (ConsumerView {
                        receipt_root: receipt_root@,
                        bank_id: bank_id@,
                        profile: render_profile,
                        scopes: observation_scopes,
                    })
                    &&& consumer.held_runner() == runner
                },
                Err(error) => consumer_refusal(receipt_root@, real_directory, bank_id@) == Some(
                    error@,
                ),
            },
    {
        if !is_absolute(receipt_root) {
            return Err(
                HindsightConsumerError::InvalidConfiguration(
                    "Hindsight receipt root must be absolute".to_owned(),
                ),
            );
        }
        if !real_directory {
            return Err(
                HindsightConsumerError::InvalidConfiguration(
                    "Hindsight receipt root must be a real directory".to_owned(),
                ),
            );
        }
        match validate_bank_id(bank_id) {
            Ok(_) => Ok(
                HindsightConsumer {
                    receipt_root: receipt_root.to_owned(),
                    bank_id: bank_id.to_owned(),
                    render_profile,
                    observation_scopes,
                    runner,
                },
            ),
            Err(error) => Err(error),
        }
    }

    /// The place of a delivery's receipt.
    pub fn receipt_path(&self, delivery: &DeliveryLease) -> (result: String)
        ensures
            result@ == receipts::receipt_place(self@.receipt_root, delivery@),
    {
        find_receipt_place(self.receipt_root.as_str(), delivery)
    }

    /// The identity of the delivered record towards the memory service.
    pub fn source_id(delivery: &DeliveryLease) -> (result: String)
        ensures
            result@ == receipts::source_id(delivery@),
    {
        record_source_id(delivery)
    }

    /// The runner that executes the requests.
    pub fn runner(&self) -> (result: &R)
        ensures
            *result == self.held_runner(),
    {
        &self.runner
    }

    /// The runner that executes the requests.
    pub closed spec fn held_runner(self) -> R {
        self.runner
    }

    fn make_receipt(
        &self,
        delivery: &DeliveryLease,
        payload: &Option<CanonicalRevision>,
        operation_id: Option<&str>,
    ) -> (result: Json)
        ensures
            result@ == JsonView::Object(
                receipt_members(
                    self@,
                    delivery@,
                    text::view_option(*payload),
                    text::view_option(operation_id),
                ),
            ),
    {
        let source_id = record_source_id(delivery);
        let receipt = JsonObject::new().with_number("format_version", 1).with_text(
            "consumer",
            "hindsight",
        ).with_text("subscription_id", delivery.subscription_id.to_text().as_str()).with_text(
            "event_id",
            delivery.event_id.as_uuid().to_text().as_str(),
        ).with_text("event_idempotency_key", event_idempotency_key(delivery).as_str()).with(
            "event_sequence",
            make_sequence(delivery.event_sequence),
        ).with_text("record_id", delivery.record_id.as_uuid().to_text().as_str()).with_number(
            "record_version",
            delivery.record_version,
        ).with_text("event_kind", delivery.kind.as_db()).with_text(
            "source_id",
            source_id.as_str(),
        ).with_text("document_id", source_id.as_str()).with_text(
            "bank_id",
            self.bank_id.as_str(),
        ).with_text("renderer_profile", self.render_profile.name()).with(
            "location",
            make_location(&delivery.location),
        ).with("payload", make_payload(payload));
        let receipt = match self.observation_scopes {
            Some(scopes) => receipt.with_text("observation_scopes", scopes.name()),
            None => receipt,
        };
        receipt.with("operation_id", make_text_or_null(operation_id)).finish()
    }

    /// The bytes of a delivery's receipt.
    pub fn receipt_bytes(
        &self,
        delivery: &DeliveryLease,
        payload: &Option<CanonicalRevision>,
        operation_id: Option<&str>,
    ) -> (result: Vec<u8>)
        ensures
            result@ == receipt_line(
                self@,
                delivery@,
                text::view_option(*payload),
                text::view_option(operation_id),
            ),
            json::reads_as(
                result@,
                JsonView::Object(
                    receipt_members(
                        self@,
                        delivery@,
                        text::view_option(*payload),
                        text::view_option(operation_id),
                    ),
                ),
            ),
    {
        proof {
            lemma_receipt_shallow(
                self@,
                delivery@,
                text::view_option(*payload),
                text::view_option(operation_id),
            );
        }
        write_json_line(&self.make_receipt(delivery, payload, operation_id))
    }

    /// What the JSON that stands at a receipt's place means.
    pub fn judge(
        &self,
        delivery: &DeliveryLease,
        payload: &Option<CanonicalRevision>,
        existing: &Result<Json, String>,
    ) -> (result: Result<HindsightPlan, HindsightConsumerError>)
        ensures
            plan_view(result) == judged(
                self@,
                delivery@,
                text::view_option(*payload),
                match *existing {
                    Ok(value) => Ok(value@),
                    Err(reason) => Err(reason@),
                },
            ),
    {
        match existing {
            Err(reason) => Err(
                HindsightConsumerError::InvalidReceipt(
                    concat2("existing receipt is not valid JSON: ", reason.as_str()),
                ),
            ),
            Ok(value) => match value {
                Json::Object(_) => {
                    let expected = self.make_receipt(delivery, payload, None);
                    if receipt_matches(value, &expected) {
                        Ok(HindsightPlan::Done)
                    } else {
                        Err(
                            HindsightConsumerError::IdempotencyConflict(
                                self.receipt_path(delivery),
                            ),
                        )
                    }
                },
                _ => Ok(HindsightPlan::Unrecognized),
            },
        }
    }

    /// What a delivery comes to before the memory service is asked, given the bytes that stand
    /// at the place of its receipt.
    pub fn plan(
        &self,
        delivery: &DeliveryLease,
        payload: Option<&[u8]>,
        existing: Option<&[u8]>,
    ) -> (result: Result<HindsightPlan, HindsightConsumerError>)
        ensures
            plan_view(result) == planned(
                self@,
                delivery@,
                text::view_option(payload),
                text::view_option(existing),
            ),
    {
        let revision: Option<CanonicalRevision> = match payload {
            Some(bytes) => Some(CanonicalRevision::from_bytes(bytes)),
            None => None,
        };
        match check_payload(delivery, &revision) {
            Some(PayloadFault::ProvenanceMismatch) => {
                return Err(HindsightConsumerError::ProvenanceMismatch);
            },
            Some(PayloadFault::MissingPayload) => {
                return Err(HindsightConsumerError::MissingPayload);
            },
            Some(PayloadFault::UnexpectedPayload) => {
                return Err(HindsightConsumerError::UnexpectedPayload);
            },
            None => {},
        }
        match existing {
            Some(found) => {
                let value = parse_bytes(found);
                self.judge(delivery, &revision, &value)
            },
            None => match (payload, &revision) {
                (Some(bytes), Some(revision)) => match parse_codex_transcript(
                    bytes,
                    self.render_profile,
                ) {
                    Ok(rendered) => Ok(
                        HindsightPlan::Retain {
                            request: retain_request(
                                delivery,
                                revision,
                                self.bank_id.as_str(),
                                self.render_profile,
                                self.observation_scopes,
                                &rendered,
                            ),
                        },
                    ),
                    Err(error) => Err(error),
                },
                _ => Ok(HindsightPlan::Record),
            },
        }
    }

    /// What is left to do once the memory service has answered.
    pub fn settle(
        &self,
        delivery: &DeliveryLease,
        plan: &HindsightPlan,
        reply: &Result<HindsightRetainResponse, String>,
    ) -> (result: Result<HindsightStep, HindsightConsumerError>)
        ensures
            receipt_view(result) == settled(self@, delivery@, plan@, reply_view(*reply)),
    {
        match plan {
            HindsightPlan::Done => Ok(HindsightStep::Stands),
            HindsightPlan::Unrecognized => Ok(HindsightStep::Unrecognized),
            HindsightPlan::Record => Ok(
                HindsightStep::Write {
                    receipt: self.receipt_bytes(delivery, &delivery.revision, None),
                },
            ),
            HindsightPlan::Retain { request } => match reply {
                Ok(response) => Ok(
                    HindsightStep::Write {
                        receipt: self.receipt_bytes(
                            delivery,
                            &delivery.revision,
                            borrow_text(&response.operation_id),
                        ),
                    },
                ),
                Err(reason) => Err(HindsightConsumerError::Runner(reason.clone())),
            },
        }
    }

    /// The outcome of an applied delivery.
    pub fn outcome(delivery: &DeliveryLease) -> (result: DeliveryOutcome)
        ensures
            result == receipts::indexing_outcome(delivery@),
    {
        receipt_outcome(delivery)
    }
}

/// The runner is asked for what the plan holds, once, and for nothing where it holds nothing.
pub open spec fn executed<R: HindsightRunner>(
    before: R,
    plan: HindsightPlanView,
    after: R,
    reply: Result<Option<Seq<char>>, Seq<char>>,
) -> bool {
    match plan {
        HindsightPlanView::Retain { request } => before.answers(request, &after, reply),
        _ => after == before && reply == Ok::<Option<Seq<char>>, Seq<char>>(None),
    }
}

impl<R: HindsightRunner> HindsightConsumer<R> {
    /// Asks the memory service for what a plan holds.
    pub fn execute(&mut self, plan: &HindsightPlan) -> (result: Result<
        HindsightRetainResponse,
        String,
    >)
        ensures
            final(self)@ == old(self)@,
            executed(
                old(self).held_runner(),
                plan@,
                final(self).held_runner(),
                reply_view(result),
            ),
    {
        match plan {
            HindsightPlan::Retain { request } => self.runner.retain(request),
            _ => Ok(HindsightRetainResponse { operation_id: None }),
        }
    }

    /// Applies a delivery, given the bytes that stand at the place of its receipt: the runner is
    /// called where the plan asks for it.
    pub fn apply(
        &mut self,
        delivery: &DeliveryLease,
        payload: Option<&[u8]>,
        existing: Option<&[u8]>,
    ) -> (result: Result<HindsightStep, HindsightConsumerError>)
        ensures
            final(self)@ == old(self)@,
            match planned(
                old(self)@,
                delivery@,
                text::view_option(payload),
                text::view_option(existing),
            ) {
                Err(error) => {
                    &&& receipt_view(result) == Err::<HindsightStepView, HindsightErrorView>(error)
                    &&& final(self).held_runner() == old(self).held_runner()
                },
                Ok(plan) => exists|reply: Result<Option<Seq<char>>, Seq<char>>|
                    {
                        &&& receipt_view(result) == #[trigger] settled(
                            old(self)@,
                            delivery@,
                            plan,
                            reply,
                        )
                        &&& executed(
                            old(self).held_runner(),
                            plan,
                            final(self).held_runner(),
                            reply,
                        )
                    },
            },
    {
        match self.plan(delivery, payload, existing) {
            Err(error) => Err(error),
            Ok(plan) => {
                let reply = self.execute(&plan);
                let result = self.settle(delivery, &plan, &reply);
                assert(receipt_view(result) == settled(
                    old(self)@,
                    delivery@,
                    plan@,
                    reply_view(reply),
                ));
                result
            },
        }
    }
}

proof fn lemma_receipt_shallow(
    consumer: ConsumerView,
    lease: LeaseView,
    payload: Option<RevisionView>,
    operation_id: Option<Seq<char>>,
)
    ensures
        json::shallow(
            JsonView::Object(receipt_members(consumer, lease, payload, operation_id)),
            127,
        ),
{
    reveal_with_fuel(json::shallow, 2);
    receipts::lemma_parts_shallow(lease.location, payload, lease.event_sequence);
}

/// A receipt that was written is recognized: where what was written stands at its place, applying
/// the delivery again asks the memory service for nothing, whatever operation the receipt names.
pub proof fn law_written_receipt_is_recognized(
    consumer: ConsumerView,
    lease: LeaseView,
    payload: Option<Seq<u8>>,
    operation_id: Option<Seq<char>>,
    written: Seq<u8>,
)
    requires
        receipts::payload_fault(lease.revision, payload_revision(payload)) is None,
        json::reads_as(
            written,
            JsonView::Object(receipt_members(consumer, lease, lease.revision, operation_id)),
        ),
    ensures
        planned(consumer, lease, payload, Some(written)) == Ok::<
            HindsightPlanView,
            HindsightErrorView,
        >(HindsightPlanView::Done),
{
    let revision = payload_revision(payload);
    assert(revision == lease.revision);
    let members = receipt_members(consumer, lease, revision, operation_id);
    let expected = receipt_members(consumer, lease, revision, None);
    assert(members.remove("operation_id"@) =~= expected.remove("operation_id"@));
}

/// No receipt is written for a request that failed.
pub proof fn law_failed_request_leaves_no_receipt(
    consumer: ConsumerView,
    lease: LeaseView,
    request: RetainView,
    reason: Seq<char>,
)
    ensures
        settled(consumer, lease, HindsightPlanView::Retain { request }, Err(reason)) is Err,
{
}

/// Nothing of a delivery without bytes reaches the memory service, and it is ignored by policy.
pub proof fn law_delivery_without_bytes_is_not_forwarded(
    consumer: ConsumerView,
    lease: LeaseView,
    existing: Option<Seq<u8>>,
)
    requires
        lease.revision is None,
    ensures
        planned(consumer, lease, None, existing) is Ok ==> planned(
            consumer,
            lease,
            None,
            existing,
        )->Ok_0 !is Retain,
        receipts::indexing_outcome(lease) == DeliveryOutcome::IgnoredByPolicy,
{
}

} // verus!
