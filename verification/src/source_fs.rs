//! Guarded source discovery: identities read from files, source configuration, and the rules of
//! one scan.
use vstd::prelude::*;
use vstd::utf8::*;

use crate::catalog;
use crate::catalog::{
    CatalogError, CatalogErrorView, RegistrationView, SourceObservation, SourceRegistration,
    TombstoneGrace,
};
use crate::domain;
use crate::domain::{
    CanonicalRevision, DomainError, DomainErrorView, IdentityView, LocationView, LogicalLocation,
    ProducerId, RecordIdentity, RevisionView,
};
use crate::ident;
use crate::ident::Uuid;
use crate::json;
use crate::json::{member_of, parse_bytes, text_member, Json, JsonView};
use crate::paths;
use crate::paths::{final_component, is_absolute, normal_components};
use crate::scan;
use crate::scan::HashDecision;
use crate::text;
use crate::text::{
    chars_of, concat2, concat3, debug_text, ends_with, join_text, label_ok, outside_utf8, same_text,
    starts_with, text_of,
};
use crate::transcript;
use crate::transcript::bytes_between;
use crate::transcript::find_line_end;

verus! {

/// Why a source could not be read or configured.
#[derive(Debug, Eq, PartialEq)]
pub enum SourceError {
    Domain(DomainError),
    Catalog(CatalogError),
    InvalidConfiguration(String),
    /// A root could not be inspected, with the reason.
    RootUnavailable { root_role: String, source: String },
    UnhealthyRoot { root_role: String, reason: String },
    /// Reading failed, with the reason.
    Read(String),
    UnexpectedFileType,
    InvalidProviderRecord { relative_path: String, reason: String },
    DuplicateLiveIdentity { source_id: String, identity: RecordIdentity },
    CounterOverflow,
    UnsupportedPlatform,
}

/// A `SourceError` with its texts as character sequences.
pub enum SourceErrorView {
    Domain(DomainErrorView),
    Catalog(CatalogErrorView),
    InvalidConfiguration(Seq<char>),
    RootUnavailable { root_role: Seq<char>, source: Seq<char> },
    UnhealthyRoot { root_role: Seq<char>, reason: Seq<char> },
    Read(Seq<char>),
    UnexpectedFileType,
    InvalidProviderRecord { relative_path: Seq<char>, reason: Seq<char> },
    DuplicateLiveIdentity { source_id: Seq<char>, identity: IdentityView },
    CounterOverflow,
    UnsupportedPlatform,
}

impl View for SourceError {
    type V = SourceErrorView;

    open spec fn view(&self) -> SourceErrorView {
        match *self {
            SourceError::Domain(error) => SourceErrorView::Domain(error@),
            SourceError::Catalog(error) => SourceErrorView::Catalog(error@),
            SourceError::InvalidConfiguration(m) => SourceErrorView::InvalidConfiguration(m@),
            SourceError::RootUnavailable { root_role, source } => {
                SourceErrorView::RootUnavailable { root_role: root_role@, source: source@ }
            },
            SourceError::UnhealthyRoot { root_role, reason } => {
                SourceErrorView::UnhealthyRoot { root_role: root_role@, reason: reason@ }
            },
            SourceError::Read(m) => SourceErrorView::Read(m@),
            SourceError::UnexpectedFileType => SourceErrorView::UnexpectedFileType,
            SourceError::InvalidProviderRecord { relative_path, reason } => {
                SourceErrorView::InvalidProviderRecord {
                    relative_path: relative_path@,
                    reason: reason@,
                }
            },
            SourceError::DuplicateLiveIdentity { source_id, identity } => {
                SourceErrorView::DuplicateLiveIdentity {
                    source_id: source_id@,
                    identity: identity@,
                }
            },
            SourceError::CounterOverflow => SourceErrorView::CounterOverflow,
            SourceError::UnsupportedPlatform => SourceErrorView::UnsupportedPlatform,
        }
    }
}

/// An identity as it is shown to an operator.
pub open spec fn identity_text(identity: IdentityView) -> Seq<char> {
    "RecordIdentity { producer_id: ProducerId("@ + ident::uuid_text(identity.producer_id.id)
        + "), agent_namespace: "@ + text::debug_form(identity.agent_namespace) + ", session_id: "@
        + text::debug_form(identity.session_id) + ", record_kind: "@ + text::debug_form(
        identity.record_kind,
    ) + ", record_key: "@ + text::debug_form(identity.record_key) + " }"@
}

/// The message of a source error.
pub open spec fn source_message(error: SourceErrorView) -> Seq<char> {
    match error {
        SourceErrorView::Domain(inner) => domain::domain_message(inner),
        SourceErrorView::Catalog(inner) => catalog::catalog_message(inner),
        SourceErrorView::InvalidConfiguration(m) => "invalid source configuration: "@ + m,
        SourceErrorView::RootUnavailable { root_role, source } => {
            "source root "@ + text::debug_form(root_role) + " is unavailable: "@ + source
        },
        SourceErrorView::UnhealthyRoot { root_role, reason } => {
            "source root "@ + text::debug_form(root_role) + " is unhealthy: "@ + reason
        },
        SourceErrorView::Read(m) => "failed to inspect source filesystem: "@ + m,
        SourceErrorView::UnexpectedFileType => "source entry is not a regular file"@,
        SourceErrorView::InvalidProviderRecord { relative_path, reason } => {
            "invalid provider record "@ + text::debug_form(relative_path) + ": "@ + reason
        },
        SourceErrorView::DuplicateLiveIdentity { source_id, identity } => {
            "source "@ + text::debug_form(source_id) + " has duplicate live identity "@
                + identity_text(identity)
        },
        SourceErrorView::CounterOverflow => "source counters overflowed"@,
        SourceErrorView::UnsupportedPlatform => {
            "guarded filesystem access requires Unix openat support"@
        },
    }
}

fn show_identity(identity: &RecordIdentity) -> (result: String)
    ensures
        result@ == identity_text(identity@),
{
    let text1 = concat3(
        "RecordIdentity { producer_id: ProducerId(",
        identity.producer_id().to_text().as_str(),
        "), agent_namespace: ",
    );
    let text2 = concat3(
        text1.as_str(),
        debug_text(identity.agent_namespace()).as_str(),
        ", session_id: ",
    );
    let text3 = concat3(
        text2.as_str(),
        debug_text(identity.session_id()).as_str(),
        ", record_kind: ",
    );
    let text4 = concat3(
        text3.as_str(),
        debug_text(identity.record_kind()).as_str(),
        ", record_key: ",
    );
    concat3(text4.as_str(), debug_text(identity.record_key()).as_str(), " }")
}

impl SourceError {
    /// The message for an operator.
    pub fn message(&self) -> (result: String)
        ensures
            result@ == source_message(self@),
    {
        match self {
            SourceError::Domain(inner) => inner.message(),
            SourceError::Catalog(inner) => inner.message(),
            SourceError::InvalidConfiguration(m) => {
                concat2("invalid source configuration: ", m.as_str())
            },
            SourceError::RootUnavailable { root_role, source } => {
                let head = concat3(
                    "source root ",
                    debug_text(root_role.as_str()).as_str(),
                    " is unavailable: ",
                );
                concat2(head.as_str(), source.as_str())
            },
            SourceError::UnhealthyRoot { root_role, reason } => {
                let head = concat3(
                    "source root ",
                    debug_text(root_role.as_str()).as_str(),
                    " is unhealthy: ",
                );
                concat2(head.as_str(), reason.as_str())
            },
            SourceError::Read(m) => concat2("failed to inspect source filesystem: ", m.as_str()),
            SourceError::UnexpectedFileType => "source entry is not a regular file".to_owned(),
            SourceError::InvalidProviderRecord { relative_path, reason } => {
                let head = concat3(
                    "invalid provider record ",
                    debug_text(relative_path.as_str()).as_str(),
                    ": ",
                );
                concat2(head.as_str(), reason.as_str())
            },
            SourceError::DuplicateLiveIdentity { source_id, identity } => {
                let head = concat3(
                    "source ",
                    debug_text(source_id.as_str()).as_str(),
                    " has duplicate live identity ",
                );
                concat2(head.as_str(), show_identity(identity).as_str())
            },
            SourceError::CounterOverflow => "source counters overflowed".to_owned(),
            SourceError::UnsupportedPlatform => {
                "guarded filesystem access requires Unix openat support".to_owned()
            },
        }
    }
}

/// The name and version of the rule by which a source names its records.
#[derive(Debug, Eq, PartialEq)]
pub struct IdentitySchema {
    name: String,
    version: u32,
}

/// The name and version of an identity schema.
#[verifier::ext_equal]
pub struct SchemaView {
    pub name: Seq<char>,
    pub version: u32,
}

impl View for IdentitySchema {
    type V = SchemaView;

    closed spec fn view(&self) -> SchemaView {
        SchemaView { name: self.name@, version: self.version }
    }
}

impl IdentitySchema {
    /// A schema with a label and a version from one up.
    pub fn new(name: &str, version: u32) -> (result: Result<IdentitySchema, SourceError>)
        ensures
            match result {
                Ok(schema) => {
                    &&& text::is_label(name@) && version != 0
                    &&& schema@ == (SchemaView { name: name@, version })
                },
                Err(error) => {
                    &&& !(text::is_label(name@) && version != 0)
                    &&& error@ == SourceErrorView::InvalidConfiguration(
                        "identity schema requires a non-empty trimmed name and non-zero version"@,
                    )
                },
            },
    {
        if !label_ok(name) || version == 0 {
            return Err(
                SourceError::InvalidConfiguration(
                    "identity schema requires a non-empty trimmed name and non-zero version".to_owned(),
                ),
            );
        }
        Ok(IdentitySchema { name: name.to_owned(), version })
    }

    pub fn name(&self) -> (result: &str)
        ensures
            result@ == self@.name,
    {
        self.name.as_str()
    }

    pub fn version(&self) -> (result: u32)
        ensures
            result == self@.version,
    {
        self.version
    }
}

/// A record found in a source.
#[derive(Debug, Eq, PartialEq)]
pub struct ParsedRecord {
    identity: RecordIdentity,
    location: LogicalLocation,
}

/// A record found in a source.
#[verifier::ext_equal]
pub struct ParsedView {
    pub identity: IdentityView,
    pub location: LocationView,
}

impl View for ParsedRecord {
    type V = ParsedView;

    closed spec fn view(&self) -> ParsedView {
        ParsedView { identity: self.identity@, location: self.location@ }
    }
}

impl ParsedRecord {
    pub fn new(identity: RecordIdentity, location: LogicalLocation) -> (result: ParsedRecord)
        ensures
            result@ == (ParsedView { identity: identity@, location: location@ }),
    {
        ParsedRecord { identity, location }
    }

    pub fn identity(&self) -> (result: &RecordIdentity)
        ensures
            result@ == self@.identity,
    {
        &self.identity
    }

    pub fn location(&self) -> (result: &LogicalLocation)
        ensures
            result@ == self@.location,
    {
        &self.location
    }

    /// A record equal to this one.
    pub fn copy(&self) -> (result: ParsedRecord)
        ensures
            result@ == self@,
    {
        ParsedRecord { identity: self.identity.clone(), location: self.location.clone() }
    }

    /// Whether two records agree in identity and location.
    pub fn same(&self, other: &ParsedRecord) -> (result: bool)
        ensures
            result == (self@ == other@),
    {
        let result = self.identity.same(&other.identity) && self.location.same(&other.location);
        assert(result ==> self@ =~= other@);
        result
    }
}

/// The components of a relative path, or why there are none.
pub open spec fn components_of(path: Seq<char>) -> Result<Seq<Seq<char>>, SourceErrorView> {
    match paths::normal_parts(path) {
        None => Err(
            SourceErrorView::InvalidConfiguration(
                "relative path must contain only normal components"@,
            ),
        ),
        Some(parts) => if parts.len() == 0 {
            Err(SourceErrorView::InvalidConfiguration("relative path must not be empty"@))
        } else {
            Ok(parts)
        },
    }
}

/// The components of a relative path.
pub fn relative_components(path: &str) -> (result: Result<Vec<String>, SourceError>)
    ensures
        (match result {
            Ok(parts) => Ok(text::views(parts@)),
            Err(error) => Err(error@),
        }) == components_of(path@),
{
    match normal_components(path) {
        None => Err(
            SourceError::InvalidConfiguration(
                "relative path must contain only normal components".to_owned(),
            ),
        ),
        Some(parts) => if parts.len() == 0 {
            Err(SourceError::InvalidConfiguration("relative path must not be empty".to_owned()))
        } else {
            Ok(parts)
        },
    }
}

/// A relative path with single slashes and no `.` components.
pub open spec fn normalized(path: Seq<char>) -> Result<Seq<char>, SourceErrorView> {
    match components_of(path) {
        Ok(parts) => Ok(text::join(parts, "/"@)),
        Err(error) => Err(error),
    }
}

/// A relative path with single slashes and no `.` components.
pub fn normalized_relative_path(path: &str) -> (result: Result<String, SourceError>)
    ensures
        (match result {
            Ok(path) => Ok(path@),
            Err(error) => Err(error@),
        }) == normalized(path@),
{
    match relative_components(path) {
        Ok(parts) => Ok(join_text(&parts, "/")),
        Err(error) => Err(error),
    }
}

/// The stable part of a rollout's file name, between its prefix and its extension.
pub open spec fn rollout_stem(name: Seq<char>) -> Option<Seq<char>> {
    let prefix = "rollout-"@;
    let suffix = ".jsonl"@;
    if text::occurs_at(name, prefix, 0) && prefix.len() + suffix.len() <= name.len()
        && text::occurs_at(name, suffix, name.len() - suffix.len()) {
        Some(name.subrange(prefix.len() as int, name.len() - suffix.len()))
    } else {
        None
    }
}

/// A refusal of a provider's record.
pub open spec fn invalid_record(path: Seq<char>, reason: Seq<char>) -> SourceErrorView {
    SourceErrorView::InvalidProviderRecord { relative_path: path, reason }
}

/// The session that a rollout's file name ends in: behind a dash, in its last 36 bytes.
pub open spec fn filename_session(path: Seq<char>) -> Result<Option<nat>, SourceErrorView> {
    match paths::file_name(path) {
        None => Ok(None),
        Some(name) => match rollout_stem(name) {
            None => Ok(None),
            Some(stem) => {
                let bytes = encode_utf8(stem);
                let start = bytes.len() - 36;
                if start <= 0 || bytes[start - 1] != 0x2d {
                    Ok(None)
                } else {
                    let tail = bytes.subrange(start, bytes.len() as int);
                    match ident::uuid_number(decode_utf8(tail)) {
                        Some(number) => if valid_utf8(tail) {
                            Ok(Some(number))
                        } else {
                            Err(
                                invalid_record(
                                    path,
                                    "rollout filename has no valid trailing UUID"@,
                                ),
                            )
                        },
                        None => Err(
                            invalid_record(path, "rollout filename has no valid trailing UUID"@),
                        ),
                    }
                }
            },
        },
    }
}

/// The session that a rollout's file name ends in.
pub fn rollout_filename_session_id(relative_path: &str) -> (result: Result<
    Option<Uuid>,
    SourceError,
>)
    ensures
        (match result {
            Ok(Some(id)) => Ok(Some(id.value as nat)),
            Ok(None) => Ok(None),
            Err(error) => Err(error@),
        }) == filename_session(relative_path@),
{
    let name = match final_component(relative_path) {
        Some(name) => name,
        None => {
            return Ok(None);
        },
    };
    proof {
        reveal_strlit("rollout-");
        reveal_strlit(".jsonl");
        assert("rollout-"@.len() == 8 && ".jsonl"@.len() == 6);
    }
    let chars = chars_of(name.as_str());
    if !starts_with(name.as_str(), "rollout-") || chars.len() < 14 || !ends_with(
        name.as_str(),
        ".jsonl",
    ) {
        return Ok(None);
    }
    let stem = text_of(&chars, 8, chars.len() - 6);
    let bytes = stem.as_str().as_bytes();
    if bytes.len() <= 36 || bytes[bytes.len() - 37] != 0x2d {
        return Ok(None);
    }
    let start: usize = bytes.len() - 36;
    let tail = bytes_between(bytes, start, bytes.len());
    let parsed: Option<Uuid> = match outside_utf8(tail.as_slice()) {
        Some(tail) => match Uuid::parse_str(tail.as_str()) {
            Ok(id) => Some(id),
            Err(_) => None,
        },
        None => None,
    };
    match parsed {
        Some(id) => Ok(Some(id)),
        None => Err(
            SourceError::InvalidProviderRecord {
                relative_path: relative_path.to_owned(),
                reason: "rollout filename has no valid trailing UUID".to_owned(),
            },
        ),
    }
}

/// The longest first line, in bytes, that is read for a session's identity.
pub const MAX_SESSION_METADATA_LINE_BYTES: usize = 65_536;

/// The first bytes of a file that are read for a session's identity.
pub open spec fn head_of(bytes: Seq<u8>) -> Seq<u8> {
    if bytes.len() <= MAX_SESSION_METADATA_LINE_BYTES {
        bytes
    } else {
        bytes.take(MAX_SESSION_METADATA_LINE_BYTES as int)
    }
}

/// The first line with its line feed, where it has one.
pub open spec fn first_line(head: Seq<u8>) -> Seq<u8> {
    let end = transcript::line_end(head, 0);
    if end < head.len() {
        head.take(end + 1)
    } else {
        head
    }
}

/// Under which name a refused first line is reported.
pub open spec fn opened_rollout() -> Seq<char> {
    "<opened rollout>"@
}

/// The session that a rollout's first record names.
pub open spec fn session_in(value: Result<JsonView, Seq<char>>) -> Result<nat, SourceErrorView> {
    match value {
        Err(reason) => Err(
            invalid_record(opened_rollout(), "invalid first JSONL record: "@ + reason),
        ),
        Ok(value) => if json::text_in(Some(value), "type"@) != Some("session_meta"@) {
            Err(invalid_record(opened_rollout(), "first JSONL record is not session_meta"@))
        } else {
            match json::text_in(json::get(value, "payload"@), "id"@) {
                None => Err(invalid_record(opened_rollout(), "session_meta has no payload.id"@)),
                Some(id) => match ident::uuid_number(id) {
                    Some(number) => Ok(number),
                    None => Err(
                        invalid_record(opened_rollout(), "session_meta payload.id is not a UUID"@),
                    ),
                },
            }
        },
    }
}

/// The session that a rollout names in its first line.
pub open spec fn metadata_session(bytes: Seq<u8>) -> Result<nat, SourceErrorView> {
    let line = first_line(head_of(bytes));
    if line.len() == MAX_SESSION_METADATA_LINE_BYTES && line.last() != 10 {
        Err(invalid_record(opened_rollout(), "first metadata line exceeds the provider limit"@))
    } else {
        session_in(json::json_of_bytes(line))
    }
}

fn refuse_opened(reason: String) -> (result: SourceError)
    ensures
        result@ == invalid_record(opened_rollout(), reason@),
{
    SourceError::InvalidProviderRecord { relative_path: "<opened rollout>".to_owned(), reason }
}

/// The session that a rollout's first record names.
pub fn session_of_record(value: &Result<Json, String>) -> (result: Result<Uuid, SourceError>)
    ensures
        (match result {
            Ok(id) => Ok(id.value as nat),
            Err(error) => Err(error@),
        }) == session_in(
            match *value {
                Ok(value) => Ok(value@),
                Err(reason) => Err(reason@),
            },
        ),
{
    let value = match value {
        Ok(value) => value,
        Err(reason) => {
            return Err(refuse_opened(concat2("invalid first JSONL record: ", reason.as_str())));
        },
    };
    let is_meta: bool = match text_member(Some(value), "type") {
        Some(kind) => same_text(kind, "session_meta"),
        None => false,
    };
    if !is_meta {
        return Err(refuse_opened("first JSONL record is not session_meta".to_owned()));
    }
    match text_member(member_of(Some(value), "payload"), "id") {
        None => Err(refuse_opened("session_meta has no payload.id".to_owned())),
        Some(id) => match Uuid::parse_str(id) {
            Ok(id) => Ok(id),
            Err(_) => Err(refuse_opened("session_meta payload.id is not a UUID".to_owned())),
        },
    }
}

/// The session that a rollout names in its first line, given the first bytes of the file.
pub fn session_metadata_id(head: &[u8]) -> (result: Result<Uuid, SourceError>)
    ensures
        (match result {
            Ok(id) => Ok(id.value as nat),
            Err(error) => Err(error@),
        }) == metadata_session(head@),
{
    let limit: usize = if head.len() <= MAX_SESSION_METADATA_LINE_BYTES {
        head.len()
    } else {
        MAX_SESSION_METADATA_LINE_BYTES
    };
    let limited = bytes_between(head, 0, limit);
    assert(limited@ =~= head_of(head@));
    let end: usize = if limited.len() == 0 {
        0
    } else {
        proof {
            transcript::lemma_line_end(limited@, 0);
        }
        find_line_end(limited.as_slice(), 0)
    };
    let line = if end < limited.len() {
        bytes_between(limited.as_slice(), 0, end + 1)
    } else {
        bytes_between(limited.as_slice(), 0, limited.len())
    };
    proof {
        assert(limited@.subrange(0, limited@.len() as int) =~= limited@);
        if end < limited@.len() {
            assert(limited@.subrange(0, end + 1) =~= limited@.take(end + 1));
        }
        assert(line@ == first_line(limited@));
    }
    if line.len() == MAX_SESSION_METADATA_LINE_BYTES && line[line.len() - 1] != 10 {
        return Err(refuse_opened("first metadata line exceeds the provider limit".to_owned()));
    }
    let value = parse_bytes(line.as_slice());
    session_of_record(&value)
}

/// How a source names its records. Only what identity needs is read; what records mean is for
/// consumers.
pub trait LayoutPlugin {
    fn identity_schema(&self) -> IdentitySchema;

    /// A cheap test on the name, before anything is opened.
    fn is_candidate_path(&self, relative_path: &str) -> bool {
        true
    }

    /// The record in a file, given the first bytes of it.
    fn parse_record(
        &self,
        producer_id: ProducerId,
        root_role: &str,
        relative_path: &str,
        head: &[u8],
    ) -> Result<Option<ParsedRecord>, SourceError>;
}

/// A file name that a rollout may have.
pub open spec fn is_rollout_path(path: Seq<char>) -> bool {
    match paths::file_name(path) {
        Some(name) => text::occurs_at(name, "rollout-"@, 0) && text::occurs_at(
            name,
            ".jsonl"@,
            name.len() - ".jsonl"@.len(),
        ),
        None => false,
    }
}

/// The identity of a session's transcript.
pub open spec fn transcript_identity(producer_id: ProducerId, session: Uuid) -> IdentityView {
    IdentityView {
        producer_id,
        agent_namespace: "codex"@,
        session_id: ident::uuid_text(session),
        record_kind: "transcript"@,
        record_key: "primary"@,
    }
}

/// The record of a session at a place, or why there can be none.
pub open spec fn record_of_session(
    producer_id: ProducerId,
    root_role: Seq<char>,
    path: Seq<char>,
    session: Uuid,
) -> Result<ParsedView, SourceErrorView> {
    let identity = transcript_identity(producer_id, session);
    if !identity.valid() {
        Err(
            SourceErrorView::Domain(
                DomainErrorView::InvalidIdentifier { field: identity.first_invalid() },
            ),
        )
    } else {
        match normalized(path) {
            Err(error) => Err(error),
            Ok(normal) => {
                let location = LocationView { root_role, source_relative_path: normal };
                if location.valid() {
                    Ok(ParsedView { identity, location })
                } else {
                    Err(SourceErrorView::Domain(location.refusal()))
                }
            },
        }
    }
}

/// The record in a rollout file: its name and its first line must name the same session.
pub open spec fn rollout_record(
    producer_id: ProducerId,
    root_role: Seq<char>,
    path: Seq<char>,
    head: Seq<u8>,
) -> Result<Option<ParsedView>, SourceErrorView> {
    match filename_session(path) {
        Err(error) => Err(error),
        Ok(None) => Ok(None),
        Ok(Some(named)) => match metadata_session(head) {
            Err(error) => Err(error),
            Ok(found) => if found != named {
                Err(
                    invalid_record(
                        path,
                        "session_meta payload.id does not match rollout filename UUID"@,
                    ),
                )
            } else {
                match record_of_session(producer_id, root_role, path, (Uuid { value: found as u128 })) {
                    Ok(record) => Ok(Some(record)),
                    Err(error) => Err(error),
                }
            },
        },
    }
}

/// A record read, or the error, with its texts as sequences.
pub open spec fn parsed_outcome(result: Result<Option<ParsedRecord>, SourceError>) -> Result<
    Option<ParsedView>,
    SourceErrorView,
> {
    match result {
        Ok(record) => Ok(text::view_option(record)),
        Err(error) => Err(error@),
    }
}

/// Rollout files: JSON lines whose first is `session_meta`.
#[derive(Clone, Copy, Debug)]
pub struct CodexRolloutLayout;

impl LayoutPlugin for CodexRolloutLayout {
    fn identity_schema(&self) -> (result: IdentitySchema)
        ensures
            result@ == (SchemaView { name: "codex-rollout"@, version: 1 }),
    {
        IdentitySchema { name: "codex-rollout".to_owned(), version: 1 }
    }

    fn is_candidate_path(&self, relative_path: &str) -> (result: bool)
        ensures
            result == is_rollout_path(relative_path@),
    {
        match final_component(relative_path) {
            Some(name) => starts_with(name.as_str(), "rollout-") && ends_with(
                name.as_str(),
                ".jsonl",
            ),
            None => false,
        }
    }

    fn parse_record(
        &self,
        producer_id: ProducerId,
        root_role: &str,
        relative_path: &str,
        head: &[u8],
    ) -> (result: Result<Option<ParsedRecord>, SourceError>)
        ensures
            parsed_outcome(result) == rollout_record(producer_id, root_role@, relative_path@, head@),
    {
        let named = match rollout_filename_session_id(relative_path) {
            Err(error) => {
                return Err(error);
            },
            Ok(None) => {
                return Ok(None);
            },
            Ok(Some(named)) => named,
        };
        let found = match session_metadata_id(head) {
            Err(error) => {
                return Err(error);
            },
            Ok(found) => found,
        };
        if found != named {
            return Err(
                SourceError::InvalidProviderRecord {
                    relative_path: relative_path.to_owned(),
                    reason: "session_meta payload.id does not match rollout filename UUID".to_owned(),
                },
            );
        }
        let identity = match RecordIdentity::new(
            producer_id,
            "codex",
            found.to_text().as_str(),
            "transcript",
            "primary",
        ) {
            Ok(identity) => identity,
            Err(error) => {
                return Err(SourceError::Domain(error));
            },
        };
        let normal = match normalized_relative_path(relative_path) {
            Ok(normal) => normal,
            Err(error) => {
                return Err(error);
            },
        };
        match LogicalLocation::new(root_role, normal.as_str()) {
            Ok(location) => Ok(Some(ParsedRecord { identity, location })),
            Err(error) => Err(SourceError::Domain(error)),
        }
    }
}

/// How often a file must be seen unchanged before its bytes are read.
#[derive(Clone, Copy, Debug, Eq, PartialEq, Structural)]
pub struct StabilityPolicy {
    pub(crate) min_unchanged_observations: u32,
}

impl StabilityPolicy {
    pub closed spec fn threshold(self) -> u32 {
        self.min_unchanged_observations
    }

    /// A policy of at least one observation.
    pub fn new(min_unchanged_observations: u32) -> (result: Result<StabilityPolicy, SourceError>)
        ensures
            match result {
                Ok(policy) => {
                    &&& min_unchanged_observations != 0
                    &&& policy.threshold() == min_unchanged_observations
                },
                Err(error) => {
                    &&& min_unchanged_observations == 0
                    &&& error@ == SourceErrorView::InvalidConfiguration(
                        "min_unchanged_observations must be at least one"@,
                    )
                },
            },
    {
        if min_unchanged_observations == 0 {
            return Err(
                SourceError::InvalidConfiguration(
                    "min_unchanged_observations must be at least one".to_owned(),
                ),
            );
        }
        Ok(StabilityPolicy { min_unchanged_observations })
    }

    pub fn min_unchanged_observations(self) -> (result: u32)
        ensures
            result == self.threshold(),
    {
        self.min_unchanged_observations
    }
}

impl Default for StabilityPolicy {
    /// Two unchanged observations.
    fn default() -> (result: StabilityPolicy)
        ensures
            result.threshold() == 2,
    {
        StabilityPolicy { min_unchanged_observations: 2 }
    }
}

/// A marker file that tells a source's root from an empty mount.
#[derive(Debug, Eq, PartialEq)]
pub struct RootGuard {
    marker_relative_path: String,
    expected_revision: CanonicalRevision,
}

/// A marker file with its path and revision as plain values.
#[verifier::ext_equal]
pub struct GuardView {
    pub marker: Seq<char>,
    pub expected: RevisionView,
}

impl View for RootGuard {
    type V = GuardView;

    closed spec fn view(&self) -> GuardView {
        GuardView { marker: self.marker_relative_path@, expected: self.expected_revision@ }
    }
}

impl RootGuard {
    /// A guard that expects these bytes at a relative path.
    pub fn from_marker_bytes(marker_relative_path: &str, expected_bytes: &[u8]) -> (result: Result<
        RootGuard,
        SourceError,
    >)
        ensures
            match result {
                Ok(guard) => {
                    &&& components_of(marker_relative_path@) is Ok
                    &&& guard@ == (GuardView {
                        marker: marker_relative_path@,
                        expected: domain::revision_of(expected_bytes@),
                    })
                },
                Err(error) => components_of(marker_relative_path@) == Err::<
                    Seq<Seq<char>>,
                    SourceErrorView,
                >(error@),
            },
    {
        match relative_components(marker_relative_path) {
            Ok(_) => Ok(
                RootGuard {
                    marker_relative_path: marker_relative_path.to_owned(),
                    expected_revision: CanonicalRevision::from_bytes(expected_bytes),
                },
            ),
            Err(error) => Err(error),
        }
    }

    pub fn marker_relative_path(&self) -> (result: &str)
        ensures
            result@ == self@.marker,
    {
        self.marker_relative_path.as_str()
    }

    pub fn expected_revision(&self) -> (result: CanonicalRevision)
        ensures
            result@ == self@.expected,
    {
        self.expected_revision
    }
}

/// One directory of a source.
#[derive(Debug)]
pub struct SourceRoot {
    root_role: String,
    path: String,
    guard: Option<RootGuard>,
}

/// One directory of a source with its parts as plain values.
#[verifier::ext_equal]
pub struct RootView {
    pub root_role: Seq<char>,
    pub path: Seq<char>,
    pub guard: Option<GuardView>,
}

impl View for SourceRoot {
    type V = RootView;

    closed spec fn view(&self) -> RootView {
        RootView {
            root_role: self.root_role@,
            path: self.path@,
            guard: text::view_option(self.guard),
        }
    }
}

/// The place that stands in for any other when a role alone is tested.
pub open spec fn anywhere(root_role: Seq<char>) -> LocationView {
    LocationView { root_role, source_relative_path: "placeholder"@ }
}

/// What is wrong with a source's root.
pub open spec fn source_root_refusal(root_role: Seq<char>, path: Seq<char>) -> Option<
    SourceErrorView,
> {
    if !anywhere(root_role).valid() {
        Some(SourceErrorView::Domain(anywhere(root_role).refusal()))
    } else if !paths::absolute(path) {
        Some(SourceErrorView::InvalidConfiguration("source root must be an absolute path"@))
    } else {
        None
    }
}

impl SourceRoot {
    /// A root with a role and an absolute path.
    pub fn new(root_role: &str, path: &str, guard: Option<RootGuard>) -> (result: Result<
        SourceRoot,
        SourceError,
    >)
        ensures
            match result {
                Ok(root) => {
                    &&& source_root_refusal(root_role@, path@) is None
                    &&& root@ == (RootView {
                        root_role: root_role@,
                        path: path@,
                        guard: text::view_option(guard),
                    })
                },
                Err(error) => source_root_refusal(root_role@, path@) == Some(error@),
            },
    {
        match LogicalLocation::new(root_role, "placeholder") {
            Ok(_) => {},
            Err(error) => {
                return Err(SourceError::Domain(error));
            },
        }
        if !is_absolute(path) {
            return Err(
                SourceError::InvalidConfiguration("source root must be an absolute path".to_owned()),
            );
        }
        Ok(SourceRoot { root_role: root_role.to_owned(), path: path.to_owned(), guard })
    }

    pub fn root_role(&self) -> (result: &str)
        ensures
            result@ == self@.root_role,
    {
        self.root_role.as_str()
    }

    pub fn path(&self) -> (result: &str)
        ensures
            result@ == self@.path,
    {
        self.path.as_str()
    }

    pub fn guard(&self) -> (result: Option<&RootGuard>)
        ensures
            text::view_option(result) == self@.guard,
    {
        match &self.guard {
            Some(guard) => Some(guard),
            None => None,
        }
    }
}

/// Whether absence may become deletion.
#[derive(Clone, Copy, Debug, Eq, PartialEq, Structural)]
pub enum DeletionMode {
    /// Records may be seen, but absence never becomes deletion.
    Disabled,
    /// Absence becomes deletion after guard checks and this grace.
    Guarded(TombstoneGrace),
}

/// A source with its parts as plain values.
#[verifier::ext_equal]
pub struct SourceView {
    pub source_id: Seq<char>,
    pub producer_id: ProducerId,
    pub roots: Seq<RootView>,
    pub deletion_mode: DeletionMode,
    pub stability: u32,
    /// The most bytes that one scan reads for revisions, where it is bounded.
    pub hash_budget: Option<u64>,
    /// The longest file whose bytes are read, where it is bounded.
    pub max_candidate: Option<u64>,
}

/// One source of records.
#[derive(Debug)]
pub struct SourceConfig {
    source_id: String,
    producer_id: ProducerId,
    roots: Vec<SourceRoot>,
    deletion_mode: DeletionMode,
    stability_policy: StabilityPolicy,
    hash_byte_budget_per_scan: Option<u64>,
    max_candidate_bytes: Option<u64>,
}

impl View for SourceConfig {
    type V = SourceView;

    closed spec fn view(&self) -> SourceView {
        SourceView {
            source_id: self.source_id@,
            producer_id: self.producer_id,
            roots: text::views(self.roots@),
            deletion_mode: self.deletion_mode,
            stability: self.stability_policy.threshold(),
            hash_budget: self.hash_byte_budget_per_scan,
            max_candidate: self.max_candidate_bytes,
        }
    }
}

/// No two roots have one role.
pub open spec fn roles_unique(roots: Seq<RootView>) -> bool {
    forall|i: int, j: int|
        0 <= i < j < roots.len() ==> (#[trigger] roots[i]).root_role != (
        #[trigger] roots[j]).root_role
}

/// Every root has a guard.
pub open spec fn all_guarded(roots: Seq<RootView>) -> bool {
    forall|i: int| 0 <= i < roots.len() ==> (#[trigger] roots[i]).guard is Some
}

/// What is wrong with a source.
pub open spec fn source_refusal(
    source_id: Seq<char>,
    roots: Seq<RootView>,
    deletion_mode: DeletionMode,
) -> Option<SourceErrorView> {
    if !text::is_label(source_id) {
        Some(
            SourceErrorView::InvalidConfiguration(
                "source_id must be non-empty, trimmed, and free of NUL bytes"@,
            ),
        )
    } else if roots.len() == 0 {
        Some(SourceErrorView::InvalidConfiguration("a source requires at least one root"@))
    } else if !roles_unique(roots) {
        Some(SourceErrorView::InvalidConfiguration("source root roles must be unique"@))
    } else if deletion_mode is Guarded && !all_guarded(roots) {
        Some(
            SourceErrorView::InvalidConfiguration(
                "guarded deletion requires a root guard for every root"@,
            ),
        )
    } else {
        None
    }
}

fn check_roles(roots: &Vec<SourceRoot>) -> (result: bool)
    ensures
        result == roles_unique(text::views(roots@)),
{
    let ghost all = text::views(roots@);
    let mut i: usize = 0;
    while i < roots.len()
        invariant
            0 <= i <= roots@.len(),
            all == text::views(roots@),
            forall|a: int, b: int|
                0 <= a < b < i ==> (#[trigger] all[a]).root_role != (#[trigger] all[b]).root_role,
        decreases roots@.len() - i,
    {
        let mut j: usize = 0;
        while j < i
            invariant
                0 <= j <= i < roots@.len(),
                all == text::views(roots@),
                forall|a: int| 0 <= a < j ==> (#[trigger] all[a]).root_role != all[i as int].root_role,
            decreases i - j,
        {
            assert(all[j as int] == roots@[j as int]@ && all[i as int] == roots@[i as int]@);
            if same_text(roots[j].root_role(), roots[i].root_role()) {
                assert(all[j as int].root_role == all[i as int].root_role);
                return false;
            }
            j += 1;
        }
        i += 1;
    }
    true
}

fn check_guards(roots: &Vec<SourceRoot>) -> (result: bool)
    ensures
        result == all_guarded(text::views(roots@)),
{
    let ghost all = text::views(roots@);
    let mut i: usize = 0;
    while i < roots.len()
        invariant
            0 <= i <= roots@.len(),
            all == text::views(roots@),
            forall|a: int| 0 <= a < i ==> (#[trigger] all[a]).guard is Some,
        decreases roots@.len() - i,
    {
        assert(all[i as int] == roots@[i as int]@);
        if roots[i].guard().is_none() {
            assert(all[i as int].guard is None);
            return false;
        }
        i += 1;
    }
    true
}

impl SourceConfig {
    /// A source with a label, at least one root, distinct roles, and guards where absence may
    /// become deletion.
    pub fn new(
        source_id: &str,
        producer_id: ProducerId,
        roots: Vec<SourceRoot>,
        deletion_mode: DeletionMode,
        stability_policy: StabilityPolicy,
    ) -> (result: Result<SourceConfig, SourceError>)
        ensures
            match result {
                Ok(config) => {
                    &&& source_refusal(source_id@, text::views(roots@), deletion_mode) is None
                    &&& config@ == (SourceView {
                        source_id: source_id@,
                        producer_id,
                        roots: text::views(roots@),
                        deletion_mode,
                        stability: stability_policy.threshold(),
                        hash_budget: None,
                        max_candidate: None,
                    })
                },
                Err(error) => source_refusal(source_id@, text::views(roots@), deletion_mode)
                    == Some(error@),
            },
    {
        if !label_ok(source_id) {
            return Err(
                SourceError::InvalidConfiguration(
                    "source_id must be non-empty, trimmed, and free of NUL bytes".to_owned(),
                ),
            );
        }
        if roots.len() == 0 {
            return Err(
                SourceError::InvalidConfiguration("a source requires at least one root".to_owned()),
            );
        }
        if !check_roles(&roots) {
            return Err(
                SourceError::InvalidConfiguration("source root roles must be unique".to_owned()),
            );
        }
        let guarded: bool = match deletion_mode {
            DeletionMode::Disabled => false,
            DeletionMode::Guarded(_) => true,
        };
        if guarded && !check_guards(&roots) {
            return Err(
                SourceError::InvalidConfiguration(
                    "guarded deletion requires a root guard for every root".to_owned(),
                ),
            );
        }
        Ok(
            SourceConfig {
                source_id: source_id.to_owned(),
                producer_id,
                roots,
                deletion_mode,
                stability_policy,
                hash_byte_budget_per_scan: None,
                max_candidate_bytes: None,
            },
        )
    }

    /// The source with a bound on the bytes that one scan reads for revisions.
    pub fn with_hash_byte_budget_per_scan(self, bytes: u64) -> (result: SourceConfig)
        ensures
            result@ == (SourceView { hash_budget: Some(bytes), ..self@ }),
    {
        SourceConfig { hash_byte_budget_per_scan: Some(bytes), ..self }
    }

    /// The source with a bound on the length of the files whose bytes are read.
    pub fn with_max_candidate_bytes(self, bytes: u64) -> (result: Result<SourceConfig, SourceError>)
        ensures
            match result {
                Ok(config) => bytes != 0 && config@ == (SourceView {
                    max_candidate: Some(bytes),
                    ..self@
                }),
                Err(error) => bytes == 0 && error@ == SourceErrorView::InvalidConfiguration(
                    "max_candidate_bytes must be greater than zero"@,
                ),
            },
    {
        if bytes == 0 {
            return Err(
                SourceError::InvalidConfiguration(
                    "max_candidate_bytes must be greater than zero".to_owned(),
                ),
            );
        }
        Ok(SourceConfig { max_candidate_bytes: Some(bytes), ..self })
    }

    pub fn source_id(&self) -> (result: &str)
        ensures
            result@ == self@.source_id,
    {
        self.source_id.as_str()
    }

    pub fn producer_id(&self) -> (result: ProducerId)
        ensures
            result == self@.producer_id,
    {
        self.producer_id
    }

    pub fn deletion_mode(&self) -> (result: DeletionMode)
        ensures
            result == self@.deletion_mode,
    {
        self.deletion_mode
    }

    pub fn roots(&self) -> (result: &Vec<SourceRoot>)
        ensures
            text::views(result@) == self@.roots,
    {
        &self.roots
    }

    /// The grace after which absence becomes deletion.
    pub fn tombstone_grace(&self) -> (result: Option<TombstoneGrace>)
        ensures
            result == scan::grace_of(self@.deletion_mode),
    {
        match self.deletion_mode {
            DeletionMode::Disabled => None,
            DeletionMode::Guarded(grace) => Some(grace),
        }
    }

    /// Whether the bytes of a file are to be read now.
    pub fn decide(
        &self,
        observation: &SourceObservation,
        byte_length: u64,
        bytes_hashed: u64,
    ) -> (result: HashDecision)
        ensures
            result == scan::decided(self@, *observation, byte_length, bytes_hashed),
    {
        if observation.unchanged_observations < self.stability_policy.min_unchanged_observations {
            return HashDecision::AwaitStability;
        }
        match self.max_candidate_bytes {
            Some(limit) => if byte_length > limit {
                return HashDecision::TooLarge;
            },
            None => {},
        }
        if !observation.needs_hash {
            return HashDecision::AlreadyRead;
        }
        match self.hash_byte_budget_per_scan {
            Some(budget) => match bytes_hashed.checked_add(byte_length) {
                Some(total) => if total > budget {
                    HashDecision::OverBudget
                } else {
                    HashDecision::Read
                },
                None => HashDecision::OverBudget,
            },
            None => HashDecision::Read,
        }
    }

    /// The catalog's registration of this source under an identity schema.
    pub fn registration(&self, identity_schema: &IdentitySchema) -> (result: Result<
        SourceRegistration,
        SourceError,
    >)
        ensures
            ({
                let parts = registration_of(self@, identity_schema@);
                match result {
                    Ok(registration) => parts.valid() && registration@ == parts,
                    Err(error) => !parts.valid() && error@ == SourceErrorView::Catalog(
                        parts.refusal(),
                    ),
                }
            }),
    {
        match SourceRegistration::new(
            self.source_id.as_str(),
            self.producer_id,
            identity_schema.name(),
            identity_schema.version(),
        ) {
            Ok(registration) => Ok(registration),
            Err(error) => Err(SourceError::Catalog(error)),
        }
    }
}

/// The catalog's registration of a source under an identity schema.
pub open spec fn registration_of(source: SourceView, schema: SchemaView) -> RegistrationView {
    RegistrationView {
        source_id: source.source_id,
        producer_id: source.producer_id,
        identity_schema_name: schema.name,
        identity_schema_version: schema.version,
    }
}

/// What inspecting a root found.
#[derive(Debug)]
pub enum RootProbe {
    /// The root could not be inspected, with the reason.
    Unavailable(String),
    /// The root is a symbolic link or no directory.
    NotADirectory,
    /// The root or its marker could not be read.
    Unreadable(SourceError),
    /// The root is a directory, and its marker has this revision where one is expected.
    Directory(Option<CanonicalRevision>),
}

/// What is wrong with a root as it was found.
pub open spec fn root_fault(root: RootView, probe: RootProbe) -> Option<SourceErrorView> {
    match probe {
        RootProbe::Unavailable(reason) => Some(
            SourceErrorView::RootUnavailable { root_role: root.root_role, source: reason@ },
        ),
        RootProbe::NotADirectory => Some(
            SourceErrorView::UnhealthyRoot {
                root_role: root.root_role,
                reason: "root is not a real directory"@,
            },
        ),
        RootProbe::Unreadable(error) => Some(error@),
        RootProbe::Directory(marker) => match root.guard {
            Some(guard) => if text::view_option(marker) == Some(guard.expected) {
                None
            } else {
                Some(
                    SourceErrorView::UnhealthyRoot {
                        root_role: root.root_role,
                        reason: "root marker did not match its configured revision"@,
                    },
                )
            },
            None => None,
        },
    }
}

/// What is wrong with the root at `at`: a root that was not inspected is not healthy.
pub open spec fn root_fault_at(roots: Seq<RootView>, probes: Seq<RootProbe>, at: int) -> Option<
    SourceErrorView,
> {
    if at < probes.len() {
        root_fault(roots[at], probes[at])
    } else {
        Some(
            SourceErrorView::UnhealthyRoot {
                root_role: roots[at].root_role,
                reason: "root was not inspected"@,
            },
        )
    }
}

/// What is wrong with the first root, from `from` on, that is not as its guard expects.
pub open spec fn first_root_fault(
    roots: Seq<RootView>,
    probes: Seq<RootProbe>,
    from: int,
) -> Option<SourceErrorView>
    decreases roots.len() - from,
{
    if from < 0 || from >= roots.len() {
        None
    } else {
        match root_fault_at(roots, probes, from) {
            Some(fault) => Some(fault),
            None => first_root_fault(roots, probes, from + 1),
        }
    }
}

/// What is wrong with the first root that is not as its guard expects.
pub open spec fn roots_fault(roots: Seq<RootView>, probes: Seq<RootProbe>) -> Option<
    SourceErrorView,
> {
    first_root_fault(roots, probes, 0)
}

/// Roots pass exactly where each of them was inspected and is as its guard expects.
pub proof fn law_healthy_roots_pass(roots: Seq<RootView>, probes: Seq<RootProbe>)
    ensures
        roots_fault(roots, probes) is None <==> probes.len() >= roots.len() && forall|i: int|
            0 <= i < roots.len() ==> root_fault(#[trigger] roots[i], probes[i]) is None,
{
    lemma_first_root_fault(roots, probes, 0);
    if roots_fault(roots, probes) is None {
        if probes.len() < roots.len() {
            assert(root_fault_at(roots, probes, probes.len() as int) is Some);
        }
        assert forall|i: int| 0 <= i < roots.len() implies root_fault(
            #[trigger] roots[i],
            probes[i],
        ) is None by {
            assert(root_fault_at(roots, probes, i) is None);
        }
    } else if probes.len() >= roots.len() && forall|i: int|
        0 <= i < roots.len() ==> root_fault(#[trigger] roots[i], probes[i]) is None {
        let at = choose|at: int|
            0 <= at < roots.len() && #[trigger] root_fault_at(roots, probes, at) is Some;
        assert(root_fault(roots[at], probes[at]) is None);
    }
}

proof fn lemma_first_root_fault(roots: Seq<RootView>, probes: Seq<RootProbe>, from: int)
    requires
        0 <= from,
    ensures
        first_root_fault(roots, probes, from) is None ==> forall|i: int|
            from <= i < roots.len() ==> #[trigger] root_fault_at(roots, probes, i) is None,
        first_root_fault(roots, probes, from) is Some ==> exists|i: int|
            from <= i < roots.len() && #[trigger] root_fault_at(roots, probes, i) is Some,
    decreases roots.len() - from,
{
    if from < roots.len() {
        if root_fault_at(roots, probes, from) is None {
            lemma_first_root_fault(roots, probes, from + 1);
        }
    }
}

/// Refuses a root that is not as its guard expects.
pub fn verify_root(root: &SourceRoot, probe: RootProbe) -> (result: Result<(), SourceError>)
    ensures
        match result {
            Ok(_) => root_fault(root@, probe) is None,
            Err(error) => root_fault(root@, probe) == Some(error@),
        },
{
    match probe {
        RootProbe::Unavailable(reason) => Err(
            SourceError::RootUnavailable { root_role: root.root_role().to_owned(), source: reason },
        ),
        RootProbe::NotADirectory => Err(
            SourceError::UnhealthyRoot {
                root_role: root.root_role().to_owned(),
                reason: "root is not a real directory".to_owned(),
            },
        ),
        RootProbe::Unreadable(error) => Err(error),
        RootProbe::Directory(marker) => match root.guard() {
            Some(guard) => {
                let matching: bool = match marker {
                    Some(found) => found.same(&guard.expected_revision()),
                    None => false,
                };
                if matching {
                    Ok(())
                } else {
                    Err(
                        SourceError::UnhealthyRoot {
                            root_role: root.root_role().to_owned(),
                            reason: "root marker did not match its configured revision".to_owned(),
                        },
                    )
                }
            },
            None => Ok(()),
        },
    }
}

/// Refuses the first root that is not as its guard expects, given what inspecting them in order
/// found.
pub fn verify_roots(roots: &Vec<SourceRoot>, probes: Vec<RootProbe>) -> (result: Result<
    (),
    SourceError,
>)
    ensures
        match result {
            Ok(_) => roots_fault(text::views(roots@), probes@) is None,
            Err(error) => roots_fault(text::views(roots@), probes@) == Some(error@),
        },
{
    let ghost all = text::views(roots@);
    let ghost given = probes@;
    let mut rest = probes;
    let mut at: usize = 0;
    while at < roots.len()
        invariant
            0 <= at <= roots@.len(),
            all == text::views(roots@),
            given == probes@,
            at <= given.len(),
            rest@ == given.skip(at as int),
            roots_fault(all, given) == first_root_fault(all, given, at as int),
        decreases roots@.len() - at,
    {
        assert(all[at as int] == roots@[at as int]@);
        if rest.len() == 0 {
            assert(at == given.len());
            return Err(
                SourceError::UnhealthyRoot {
                    root_role: roots[at].root_role().to_owned(),
                    reason: "root was not inspected".to_owned(),
                },
            );
        }
        let probe = rest.remove(0);
        assert(probe == given[at as int]);
        match verify_root(&roots[at], probe) {
            Ok(_) => {},
            Err(error) => {
                return Err(error);
            },
        }
        at += 1;
        assert(rest@ =~= given.skip(at as int));
    }
    Ok(())
}

} // verus!
