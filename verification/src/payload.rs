//! Verified access to the bytes of a revision, and the bounded cache of files made from them.
use vstd::prelude::*;

use crate::catalog::SourceFingerprint;
use crate::domain;
use crate::domain::{
    CanonicalRevision, DomainError, DomainErrorView, LocationView, LogicalLocation, RevisionBuilder,
    RevisionView,
};
use crate::ident;
use crate::ident::Uuid;
use crate::paths;
use crate::paths::{is_absolute, join_path};
use crate::source_fs;
use crate::source_fs::{SourceError, SourceErrorView};
use crate::text;
use crate::text::{chars_of, concat2, concat3, decimal_text, ends_with, starts_with, text_of};

verus! {

/// Why bytes could not be delivered or cached.
#[derive(Debug, Eq, PartialEq)]
pub enum PayloadError {
    Domain(DomainError),
    Source(SourceError),
    InvalidConfiguration(String),
    /// Reading failed, with the reason.
    Read(String),
    /// The cache's files could not be managed, with the reason.
    CacheIo(String),
    CachePoisoned,
    CacheLocked,
    MaterializationLimit { requested_bytes: u64, limit_bytes: u64 },
    CacheCapacityExceeded,
    UnexpectedFileType,
    StaleRevision { reason: String },
}

/// A `PayloadError` with its texts as character sequences.
pub enum PayloadErrorView {
    Domain(DomainErrorView),
    Source(SourceErrorView),
    InvalidConfiguration(Seq<char>),
    Read(Seq<char>),
    CacheIo(Seq<char>),
    CachePoisoned,
    CacheLocked,
    MaterializationLimit { requested_bytes: u64, limit_bytes: u64 },
    CacheCapacityExceeded,
    UnexpectedFileType,
    StaleRevision { reason: Seq<char> },
}

impl View for PayloadError {
    type V = PayloadErrorView;

    open spec fn view(&self) -> PayloadErrorView {
        match *self {
            PayloadError::Domain(error) => PayloadErrorView::Domain(error@),
            PayloadError::Source(error) => PayloadErrorView::Source(error@),
            PayloadError::InvalidConfiguration(m) => PayloadErrorView::InvalidConfiguration(m@),
            PayloadError::Read(m) => PayloadErrorView::Read(m@),
            PayloadError::CacheIo(m) => PayloadErrorView::CacheIo(m@),
            PayloadError::CachePoisoned => PayloadErrorView::CachePoisoned,
            PayloadError::CacheLocked => PayloadErrorView::CacheLocked,
            PayloadError::MaterializationLimit { requested_bytes, limit_bytes } => {
                PayloadErrorView::MaterializationLimit { requested_bytes, limit_bytes }
            },
            PayloadError::CacheCapacityExceeded => PayloadErrorView::CacheCapacityExceeded,
            PayloadError::UnexpectedFileType => PayloadErrorView::UnexpectedFileType,
            PayloadError::StaleRevision { reason } => {
                PayloadErrorView::StaleRevision { reason: reason@ }
            },
        }
    }
}

/// The message of a payload error.
pub open spec fn payload_message(error: PayloadErrorView) -> Seq<char> {
    match error {
        PayloadErrorView::Domain(inner) => domain::domain_message(inner),
        PayloadErrorView::Source(inner) => source_fs::source_message(inner),
        PayloadErrorView::InvalidConfiguration(m) => {
            "invalid external payload configuration: "@ + m
        },
        PayloadErrorView::Read(m) => "failed to read external payload: "@ + m,
        PayloadErrorView::CacheIo(m) => "failed to manage materialization cache: "@ + m,
        PayloadErrorView::CachePoisoned => {
            "materialization cache accounting lock was poisoned"@
        },
        PayloadErrorView::CacheLocked => {
            "materialization cache is already owned by another controller process"@
        },
        PayloadErrorView::MaterializationLimit { requested_bytes, limit_bytes } => {
            "revision of "@ + text::decimal(requested_bytes as nat)
                + " bytes exceeds the materialization per-entry limit of "@ + text::decimal(
                limit_bytes as nat,
            ) + " bytes"@
        },
        PayloadErrorView::CacheCapacityExceeded => {
            "materialization cache has no remaining active entry or byte capacity"@
        },
        PayloadErrorView::UnexpectedFileType => "external payload is not a regular file"@,
        PayloadErrorView::StaleRevision { reason } => {
            "external payload no longer represents the expected revision: "@ + reason
        },
    }
}

impl PayloadError {
    /// The message for an operator.
    pub fn message(&self) -> (result: String)
        ensures
            result@ == payload_message(self@),
    {
        match self {
            PayloadError::Domain(inner) => inner.message(),
            PayloadError::Source(inner) => inner.message(),
            PayloadError::InvalidConfiguration(m) => {
                concat2("invalid external payload configuration: ", m.as_str())
            },
            PayloadError::Read(m) => concat2("failed to read external payload: ", m.as_str()),
            PayloadError::CacheIo(m) => {
                concat2("failed to manage materialization cache: ", m.as_str())
            },
            PayloadError::CachePoisoned => {
                "materialization cache accounting lock was poisoned".to_owned()
            },
            PayloadError::CacheLocked => {
                "materialization cache is already owned by another controller process".to_owned()
            },
            PayloadError::MaterializationLimit { requested_bytes, limit_bytes } => {
                let head = concat3(
                    "revision of ",
                    decimal_text(*requested_bytes).as_str(),
                    " bytes exceeds the materialization per-entry limit of ",
                );
                concat3(head.as_str(), decimal_text(*limit_bytes).as_str(), " bytes")
            },
            PayloadError::CacheCapacityExceeded => {
                "materialization cache has no remaining active entry or byte capacity".to_owned()
            },
            PayloadError::UnexpectedFileType => "external payload is not a regular file".to_owned(),
            PayloadError::StaleRevision { reason } => {
                concat2(
                    "external payload no longer represents the expected revision: ",
                    reason.as_str(),
                )
            },
        }
    }
}

/// A refusal of bytes that are not those expected.
pub open spec fn stale(reason: Seq<char>) -> PayloadErrorView {
    PayloadErrorView::StaleRevision { reason }
}

/// A revision whose bytes stand in a file below a root.
#[derive(Debug)]
pub struct CurrentExternalRevision {
    root: String,
    relative_path: String,
    expected: CanonicalRevision,
}

/// A revision whose bytes stand in a file below a root.
#[verifier::ext_equal]
pub struct ExternalView {
    pub root: Seq<char>,
    pub relative_path: Seq<char>,
    pub expected: RevisionView,
}

impl View for CurrentExternalRevision {
    type V = ExternalView;

    closed spec fn view(&self) -> ExternalView {
        ExternalView {
            root: self.root@,
            relative_path: self.relative_path@,
            expected: self.expected@,
        }
    }
}

/// The place of a payload below any root.
pub open spec fn payload_location(relative_path: Seq<char>) -> LocationView {
    LocationView { root_role: "payload"@, source_relative_path: relative_path }
}

/// What is wrong with the place of an external revision.
pub open spec fn external_refusal(root: Seq<char>, relative_path: Seq<char>) -> Option<
    PayloadErrorView,
> {
    if !paths::absolute(root) {
        Some(
            PayloadErrorView::InvalidConfiguration(
                "external revision root must be an absolute path"@,
            ),
        )
    } else if !payload_location(relative_path).valid() {
        Some(PayloadErrorView::Domain(payload_location(relative_path).refusal()))
    } else {
        None
    }
}

/// What is wrong with an opened file, by its kind and length.
pub open spec fn opened_refusal(expected: RevisionView, is_file: bool, byte_length: u64) -> Option<
    PayloadErrorView,
> {
    if !is_file {
        Some(PayloadErrorView::UnexpectedFileType)
    } else if byte_length != expected.byte_length {
        Some(stale("opened descriptor length differs from the expected revision"@))
    } else {
        None
    }
}

impl CurrentExternalRevision {
    /// A revision at a confined path below an absolute root.
    pub fn new(root: &str, relative_path: &str, expected: CanonicalRevision) -> (result: Result<
        CurrentExternalRevision,
        PayloadError,
    >)
        ensures
            match result {
                Ok(external) => {
                    &&& external_refusal(root@, relative_path@) is None
                    &&& external@ == (ExternalView {
                        root: root@,
                        relative_path: relative_path@,
                        expected: expected@,
                    })
                },
                Err(error) => external_refusal(root@, relative_path@) == Some(error@),
            },
    {
        if !is_absolute(root) {
            return Err(
                PayloadError::InvalidConfiguration(
                    "external revision root must be an absolute path".to_owned(),
                ),
            );
        }
        match LogicalLocation::new("payload", relative_path) {
            Ok(_) => Ok(
                CurrentExternalRevision {
                    root: root.to_owned(),
                    relative_path: relative_path.to_owned(),
                    expected,
                },
            ),
            Err(error) => Err(PayloadError::Domain(error)),
        }
    }

    pub fn expected(&self) -> (result: CanonicalRevision)
        ensures
            result@ == self@.expected,
    {
        self.expected
    }

    pub fn root(&self) -> (result: &str)
        ensures
            result@ == self@.root,
    {
        self.root.as_str()
    }

    pub fn relative_path(&self) -> (result: &str)
        ensures
            result@ == self@.relative_path,
    {
        self.relative_path.as_str()
    }

    /// Starts reading an opened file, by its kind and fingerprint.
    pub fn open(&self, is_file: bool, fingerprint: SourceFingerprint) -> (result: Result<
        VerifiedReader,
        PayloadError,
    >)
        ensures
            match result {
                Ok(reader) => {
                    &&& opened_refusal(self@.expected, is_file, fingerprint.byte_length) is None
                    &&& reader@ == (ReaderView {
                        expected: self@.expected,
                        fingerprint,
                        read: Seq::empty(),
                        finished: false,
                    })
                },
                Err(error) => opened_refusal(self@.expected, is_file, fingerprint.byte_length)
                    == Some(error@),
            },
    {
        if !is_file {
            return Err(PayloadError::UnexpectedFileType);
        }
        if fingerprint.byte_length != self.expected.byte_length() {
            return Err(
                PayloadError::StaleRevision {
                    reason: "opened descriptor length differs from the expected revision".to_owned(),
                },
            );
        }
        Ok(
            VerifiedReader {
                expected: self.expected,
                initial_fingerprint: fingerprint,
                builder: RevisionBuilder::new(),
                finished: false,
            },
        )
    }
}

/// A file being read against the revision that is expected of it. What was read counts as
/// delivered only after `finish`.
pub struct VerifiedReader {
    expected: CanonicalRevision,
    initial_fingerprint: SourceFingerprint,
    builder: RevisionBuilder,
    finished: bool,
}

/// A file being read: what is expected, what it was when opened, and what was read.
#[verifier::ext_equal]
pub struct ReaderView {
    pub expected: RevisionView,
    pub fingerprint: SourceFingerprint,
    pub read: Seq<u8>,
    pub finished: bool,
}

impl View for VerifiedReader {
    type V = ReaderView;

    closed spec fn view(&self) -> ReaderView {
        ReaderView {
            expected: self.expected@,
            fingerprint: self.initial_fingerprint,
            read: self.builder.input(),
            finished: self.finished,
        }
    }
}

/// What is wrong with a file that was read to its end.
pub open spec fn finish_refusal(reader: ReaderView, fingerprint: SourceFingerprint) -> Option<
    PayloadErrorView,
> {
    if reader.finished {
        None
    } else if fingerprint != reader.fingerprint {
        Some(stale("descriptor metadata changed while it was streamed"@))
    } else if domain::revision_of(reader.read) != reader.expected {
        Some(stale("descriptor bytes do not match the expected canonical revision"@))
    } else {
        None
    }
}

impl VerifiedReader {
    /// Takes in the bytes of one read. A finished reader takes in nothing.
    pub fn absorb(&mut self, bytes: &[u8]) -> (result: Result<(), PayloadError>)
        ensures
            match result {
                Ok(_) => final(self)@ == (if old(self)@.finished {
                    old(self)@
                } else {
                    ReaderView { read: old(self)@.read + bytes@, ..old(self)@ }
                }) && (old(self)@.finished || old(self)@.read.len() + bytes@.len() <= u64::MAX),
                Err(error) => {
                    &&& !old(self)@.finished
                    &&& old(self)@.read.len() + bytes@.len() > u64::MAX
                    &&& error@ == PayloadErrorView::Read("revision byte count overflow"@)
                    &&& final(self)@ == old(self)@
                },
            },
    {
        if self.finished {
            return Ok(());
        }
        match self.builder.absorb(bytes) {
            Ok(_) => {
                assert(self@ =~= (ReaderView { read: old(self)@.read + bytes@, ..old(self)@ }));
                Ok(())
            },
            Err(_) => Err(PayloadError::Read("revision byte count overflow".to_owned())),
        }
    }

    /// Whether everything was read and found as expected, given the fingerprint at the end.
    pub fn finish(&mut self, fingerprint: &SourceFingerprint) -> (result: Result<(), PayloadError>)
        ensures
            match result {
                Ok(_) => {
                    &&& finish_refusal(old(self)@, *fingerprint) is None
                    &&& final(self)@ == (ReaderView { finished: true, ..old(self)@ })
                },
                Err(error) => {
                    &&& finish_refusal(old(self)@, *fingerprint) == Some(error@)
                    &&& final(self)@ == old(self)@
                },
            },
    {
        if self.finished {
            return Ok(());
        }
        if *fingerprint != self.initial_fingerprint {
            return Err(
                PayloadError::StaleRevision {
                    reason: "descriptor metadata changed while it was streamed".to_owned(),
                },
            );
        }
        let actual = self.builder.finish();
        if !actual.same(&self.expected) {
            return Err(
                PayloadError::StaleRevision {
                    reason: "descriptor bytes do not match the expected canonical revision".to_owned(),
                },
            );
        }
        self.finished = true;
        Ok(())
    }

    pub fn is_finished(&self) -> (result: bool)
        ensures
            result == self@.finished,
    {
        self.finished
    }
}

/// A reader that finishes has read exactly the bytes of the expected revision from a file that did
/// not change.
pub proof fn law_finished_reader_read_the_revision(
    reader: ReaderView,
    fingerprint: SourceFingerprint,
)
    requires
        !reader.finished,
        finish_refusal(reader, fingerprint) is None,
    ensures
        domain::revision_of(reader.read) == reader.expected,
        fingerprint == reader.fingerprint,
{
}

/// Bounds of the cache: per file, and for all files at once.
#[derive(Clone, Copy, Debug, Eq, PartialEq, Structural)]
pub struct MaterializationLimits {
    pub(crate) max_entry_bytes: u64,
    pub(crate) max_active_entries: u32,
    pub(crate) max_active_bytes: u64,
}

/// Bounds of the cache.
pub struct LimitsView {
    pub entry_bytes: u64,
    pub active_entries: u32,
    pub active_bytes: u64,
}

impl View for MaterializationLimits {
    type V = LimitsView;

    closed spec fn view(&self) -> LimitsView {
        LimitsView {
            entry_bytes: self.max_entry_bytes,
            active_entries: self.max_active_entries,
            active_bytes: self.max_active_bytes,
        }
    }
}

/// What is wrong with the bounds of a cache.
pub open spec fn limits_refusal(entry_bytes: u64, active_entries: u32, active_bytes: u64) -> Option<
    PayloadErrorView,
> {
    if entry_bytes == 0 || active_entries == 0 || active_bytes == 0 {
        Some(
            PayloadErrorView::InvalidConfiguration(
                "materialization limits must all be greater than zero"@,
            ),
        )
    } else if entry_bytes > active_bytes {
        Some(
            PayloadErrorView::InvalidConfiguration(
                "max_entry_bytes must not exceed max_active_bytes"@,
            ),
        )
    } else {
        None
    }
}

impl MaterializationLimits {
    /// Positive bounds, with room for at least one file of the greatest length.
    pub fn new(max_entry_bytes: u64, max_active_entries: u32, max_active_bytes: u64) -> (result: Result<
        MaterializationLimits,
        PayloadError,
    >)
        ensures
            match result {
                Ok(limits) => {
                    &&& limits_refusal(max_entry_bytes, max_active_entries, max_active_bytes) is None
                    &&& limits@ == (LimitsView {
                        entry_bytes: max_entry_bytes,
                        active_entries: max_active_entries,
                        active_bytes: max_active_bytes,
                    })
                },
                Err(error) => limits_refusal(max_entry_bytes, max_active_entries, max_active_bytes)
                    == Some(error@),
            },
    {
        if max_entry_bytes == 0 || max_active_entries == 0 || max_active_bytes == 0 {
            return Err(
                PayloadError::InvalidConfiguration(
                    "materialization limits must all be greater than zero".to_owned(),
                ),
            );
        }
        if max_entry_bytes > max_active_bytes {
            return Err(
                PayloadError::InvalidConfiguration(
                    "max_entry_bytes must not exceed max_active_bytes".to_owned(),
                ),
            );
        }
        Ok(MaterializationLimits { max_entry_bytes, max_active_entries, max_active_bytes })
    }

    pub fn max_entry_bytes(self) -> (result: u64)
        ensures
            result == self@.entry_bytes,
    {
        self.max_entry_bytes
    }

    pub fn max_active_entries(self) -> (result: u32)
        ensures
            result == self@.active_entries,
    {
        self.max_active_entries
    }

    pub fn max_active_bytes(self) -> (result: u64)
        ensures
            result == self@.active_bytes,
    {
        self.max_active_bytes
    }
}

/// The accounts of a cache of files: what is in use, within its bounds.
#[derive(Debug)]
pub struct MaterializationCache {
    root: String,
    limits: MaterializationLimits,
    active_entries: u32,
    active_bytes: u64,
}

/// The accounts of a cache.
#[verifier::ext_equal]
pub struct CacheView {
    pub root: Seq<char>,
    pub limits: LimitsView,
    pub entries: u32,
    pub bytes: u64,
}

impl View for MaterializationCache {
    type V = CacheView;

    closed spec fn view(&self) -> CacheView {
        CacheView {
            root: self.root@,
            limits: self.limits@,
            entries: self.active_entries,
            bytes: self.active_bytes,
        }
    }
}

/// What is wrong with the root of a cache.
pub open spec fn cache_refusal(root: Seq<char>, real_directory: bool) -> Option<PayloadErrorView> {
    if !paths::absolute(root) {
        Some(
            PayloadErrorView::InvalidConfiguration(
                "materialization cache root must be an absolute path"@,
            ),
        )
    } else if !real_directory {
        Some(
            PayloadErrorView::InvalidConfiguration(
                "materialization cache root must be a real directory"@,
            ),
        )
    } else {
        None
    }
}

/// The accounts after room for one file was taken, or why there is none.
pub open spec fn reserved(cache: CacheView, bytes: u64) -> Result<CacheView, PayloadErrorView> {
    if bytes > cache.limits.entry_bytes {
        Err(
            PayloadErrorView::MaterializationLimit {
                requested_bytes: bytes,
                limit_bytes: cache.limits.entry_bytes,
            },
        )
    } else if cache.entries + 1 > cache.limits.active_entries || cache.bytes + bytes
        > cache.limits.active_bytes {
        Err(PayloadErrorView::CacheCapacityExceeded)
    } else {
        Ok(
            CacheView {
                entries: (cache.entries + 1) as u32,
                bytes: (cache.bytes + bytes) as u64,
                ..cache
            },
        )
    }
}

/// The accounts after the room of one file was given back.
pub open spec fn released(cache: CacheView, bytes: u64) -> CacheView {
    CacheView {
        entries: if cache.entries == 0 {
            0
        } else {
            (cache.entries - 1) as u32
        },
        bytes: if cache.bytes < bytes {
            0
        } else {
            (cache.bytes - bytes) as u64
        },
        ..cache
    }
}

/// The stable part of the names of a revision's files.
pub open spec fn lease_stem(revision: RevisionView, nonce: Uuid) -> Seq<char> {
    "lease-"@ + text::hex(revision.digest) + "-"@ + ident::uuid_text(nonce)
}

/// The name of a finished file.
pub open spec fn payload_name(revision: RevisionView, nonce: Uuid) -> Seq<char> {
    lease_stem(revision, nonce) + ".payload"@
}

/// The name of a file in the making.
pub open spec fn partial_name(revision: RevisionView, nonce: Uuid) -> Seq<char> {
    "."@ + lease_stem(revision, nonce) + ".partial"@
}

impl MaterializationCache {
    /// A cache below an absolute root, which must be a directory and no symbolic link.
    pub fn new(root: &str, real_directory: bool, limits: MaterializationLimits) -> (result: Result<
        MaterializationCache,
        PayloadError,
    >)
        ensures
            match result {
                Ok(cache) => {
                    &&& cache_refusal(root@, real_directory) is None
                    &&& cache@ == (CacheView { root: root@, limits: limits@, entries: 0, bytes: 0 })
                },
                Err(error) => cache_refusal(root@, real_directory) == Some(error@),
            },
    {
        if !is_absolute(root) {
            return Err(
                PayloadError::InvalidConfiguration(
                    "materialization cache root must be an absolute path".to_owned(),
                ),
            );
        }
        if !real_directory {
            return Err(
                PayloadError::InvalidConfiguration(
                    "materialization cache root must be a real directory".to_owned(),
                ),
            );
        }
        Ok(
            MaterializationCache {
                root: root.to_owned(),
                limits,
                active_entries: 0,
                active_bytes: 0,
            },
        )
    }

    pub fn root(&self) -> (result: &str)
        ensures
            result@ == self@.root,
    {
        self.root.as_str()
    }

    pub fn limits(&self) -> (result: MaterializationLimits)
        ensures
            result@ == self@.limits,
    {
        self.limits
    }

    /// Takes room for one file.
    pub fn reserve(&mut self, bytes: u64) -> (result: Result<(), PayloadError>)
        ensures
            match reserved(old(self)@, bytes) {
                Ok(next) => result is Ok && final(self)@ == next,
                Err(expected) => {
                    &&& result matches Err(error)
                    &&& error@ == expected
                    &&& final(self)@ == old(self)@
                },
            },
    {
        if bytes > self.limits.max_entry_bytes {
            return Err(
                PayloadError::MaterializationLimit {
                    requested_bytes: bytes,
                    limit_bytes: self.limits.max_entry_bytes,
                },
            );
        }
        let next_entries: u32 = match self.active_entries.checked_add(1) {
            Some(count) => count,
            None => {
                return Err(PayloadError::CacheCapacityExceeded);
            },
        };
        let next_bytes: u64 = match self.active_bytes.checked_add(bytes) {
            Some(total) => total,
            None => {
                return Err(PayloadError::CacheCapacityExceeded);
            },
        };
        if next_entries > self.limits.max_active_entries || next_bytes
            > self.limits.max_active_bytes {
            return Err(PayloadError::CacheCapacityExceeded);
        }
        self.active_entries = next_entries;
        self.active_bytes = next_bytes;
        assert(self@ =~= reserved(old(self)@, bytes)->Ok_0);
        Ok(())
    }

    /// Gives back the room of one file.
    pub fn release_reservation(&mut self, bytes: u64)
        ensures
            final(self)@ == released(old(self)@, bytes),
    {
        self.active_entries = if self.active_entries == 0 {
            0
        } else {
            self.active_entries - 1
        };
        self.active_bytes = if self.active_bytes < bytes {
            0
        } else {
            self.active_bytes - bytes
        };
        assert(self@ =~= released(old(self)@, bytes));
    }

    /// The place of a finished file.
    pub fn payload_path(&self, revision: &CanonicalRevision, nonce: Uuid) -> (result: String)
        ensures
            result@ == paths::joined(self@.root, payload_name(revision@, nonce)),
    {
        let name = concat2(make_stem(revision, nonce).as_str(), ".payload");
        join_path(self.root.as_str(), name.as_str())
    }

    /// The place of a file in the making.
    pub fn partial_path(&self, revision: &CanonicalRevision, nonce: Uuid) -> (result: String)
        ensures
            result@ == paths::joined(self@.root, partial_name(revision@, nonce)),
    {
        let name = concat3(".", make_stem(revision, nonce).as_str(), ".partial");
        join_path(self.root.as_str(), name.as_str())
    }
}

fn make_stem(revision: &CanonicalRevision, nonce: Uuid) -> (result: String)
    ensures
        result@ == lease_stem(revision@, nonce),
{
    let head = concat3("lease-", revision.digest_hex().as_str(), "-");
    concat2(head.as_str(), nonce.to_text().as_str())
}

/// Room that was taken for a file and is given back leaves the accounts as they were.
pub proof fn law_release_undoes_reserve(cache: CacheView, bytes: u64)
    requires
        reserved(cache, bytes) is Ok,
    ensures
        released(reserved(cache, bytes)->Ok_0, bytes) == cache,
{
}

/// Taking room never exceeds the bounds of the cache.
pub proof fn law_reservations_stay_within_limits(cache: CacheView, bytes: u64)
    requires
        reserved(cache, bytes) is Ok,
    ensures
        reserved(cache, bytes)->Ok_0.entries <= cache.limits.active_entries,
        reserved(cache, bytes)->Ok_0.bytes <= cache.limits.active_bytes,
        bytes <= cache.limits.entry_bytes,
{
}

/// A file of the cache, held for one delivery.
#[derive(Debug)]
pub struct MaterializedLease {
    path: String,
    expected: CanonicalRevision,
    reserved_bytes: u64,
    released: bool,
}

/// A file of the cache, held for one delivery.
#[verifier::ext_equal]
pub struct MaterializedView {
    pub path: Seq<char>,
    pub expected: RevisionView,
    pub released: bool,
}

impl View for MaterializedLease {
    type V = MaterializedView;

    closed spec fn view(&self) -> MaterializedView {
        MaterializedView {
            path: self.path@,
            expected: self.expected@,
            released: self.released,
        }
    }
}

/// What came of removing a file.
#[derive(Debug)]
pub enum Removal {
    Removed,
    NotFound,
    /// The file may still be there, with the reason.
    Failed(String),
}

impl MaterializedLease {
    #[verifier::type_invariant]
    spec fn inv(self) -> bool {
        self.reserved_bytes == self.expected@.byte_length
    }

    /// The hold on a finished file of this revision.
    pub fn new(path: &str, expected: CanonicalRevision) -> (result: MaterializedLease)
        ensures
            result@ == (MaterializedView { path: path@, expected: expected@, released: false }),
    {
        MaterializedLease {
            path: path.to_owned(),
            expected,
            reserved_bytes: expected.byte_length(),
            released: false,
        }
    }

    pub fn path(&self) -> (result: &str)
        ensures
            result@ == self@.path,
    {
        self.path.as_str()
    }

    pub fn expected(&self) -> (result: CanonicalRevision)
        ensures
            result@ == self@.expected,
    {
        self.expected
    }

    /// Gives the room of the file back once it is gone. Where removing it failed, the room stays
    /// taken.
    pub fn release(&mut self, cache: &mut MaterializationCache, removal: &Removal) -> (result: Result<
        (),
        PayloadError,
    >)
        ensures
            if old(self)@.released {
                &&& result is Ok
                &&& final(self)@ == old(self)@
                &&& final(cache)@ == old(cache)@
            } else {
                match *removal {
                    Removal::Failed(reason) => {
                        &&& result matches Err(error)
                        &&& error@ == PayloadErrorView::CacheIo(reason@)
                        &&& final(self)@ == old(self)@
                        &&& final(cache)@ == old(cache)@
                    },
                    _ => {
                        &&& result is Ok
                        &&& final(self)@ == (MaterializedView { released: true, ..old(self)@ })
                        &&& final(cache)@ == released(
                            old(cache)@,
                            old(self)@.expected.byte_length,
                        )
                    },
                }
            },
    {
        proof {
            use_type_invariant(&*self);
        }
        if self.released {
            return Ok(());
        }
        match removal {
            Removal::Failed(reason) => Err(PayloadError::CacheIo(reason.clone())),
            _ => {
                cache.release_reservation(self.reserved_bytes);
                self.released = true;
                Ok(())
            },
        }
    }
}

/// `name` without `suffix` at its end.
pub open spec fn without_suffix(name: Seq<char>, suffix: Seq<char>) -> Option<Seq<char>> {
    if text::occurs_at(name, suffix, name.len() - suffix.len()) {
        Some(name.take(name.len() - suffix.len()))
    } else {
        None
    }
}

/// The stable part of a name that a file of the cache may have.
pub open spec fn owned_stem(name: Seq<char>) -> Option<Seq<char>> {
    match without_suffix(name, ".payload"@) {
        Some(stem) => Some(stem),
        None => if name.len() > 0 && name[0] == '.' {
            without_suffix(name.skip(1), ".partial"@)
        } else {
            None
        },
    }
}

/// A hexadecimal digit in either letter case.
pub open spec fn is_hex_char(c: char) -> bool {
    ('0' <= c && c <= '9') || ('a' <= c && c <= 'f') || ('A' <= c && c <= 'F')
}

/// Whether a file of this name was made by a cache.
pub open spec fn is_owned(name: Seq<char>) -> bool {
    match owned_stem(name) {
        Some(stem) => {
            let rest = stem.skip(6);
            &&& text::occurs_at(stem, "lease-"@, 0)
            &&& rest.len() > 64
            &&& forall|i: int| 0 <= i < 64 ==> is_hex_char(#[trigger] rest[i])
            &&& rest[64] == '-'
            &&& ident::uuid_number(rest.skip(65)) is Some
        },
        None => false,
    }
}

fn strip_name_suffix(chars: &Vec<char>, from: usize, suffix: &str) -> (result: Option<usize>)
    requires
        from <= chars@.len(),
    ensures
        match (result, without_suffix(chars@.skip(from as int), suffix@)) {
            (Some(end), Some(stem)) => {
                &&& from <= end <= chars@.len()
                &&& stem == chars@.subrange(from as int, end as int)
            },
            (None, None) => true,
            _ => false,
        },
{
    let name = text_of(chars, from, chars.len());
    assert(name@ =~= chars@.skip(from as int));
    let tail = chars_of(suffix);
    if ends_with(name.as_str(), suffix) {
        let end: usize = chars.len() - tail.len();
        assert(chars@.subrange(from as int, end as int) =~= name@.take(
            name@.len() - suffix@.len(),
        ));
        Some(end)
    } else {
        None
    }
}

/// Whether a file of this name was made by a cache.
pub fn is_owned_materialization_name(file_name: &str) -> (result: bool)
    ensures
        result == is_owned(file_name@),
{
    let chars = chars_of(file_name);
    assert(chars@.skip(0) =~= file_name@);
    let (from, end): (usize, usize) = match strip_name_suffix(&chars, 0, ".payload") {
        Some(end) => (0, end),
        None => {
            if chars.len() == 0 || chars[0] != '.' {
                return false;
            }
            match strip_name_suffix(&chars, 1, ".partial") {
                Some(end) => (1, end),
                None => {
                    return false;
                },
            }
        },
    };
    let stem = text_of(&chars, from, end);
    proof {
        reveal_strlit("lease-");
        assert("lease-"@.len() == 6);
    }
    if !starts_with(stem.as_str(), "lease-") {
        return false;
    }
    let rest = chars_of(stem.as_str());
    let ghost tail = stem@.skip(6);
    if rest.len() <= 70 {
        return false;
    }
    let mut i: usize = 6;
    while i < 70
        invariant
            6 <= i <= 70,
            70 < rest@.len(),
            rest@ == stem@,
            tail == stem@.skip(6),
            forall|j: int| 0 <= j < i - 6 ==> is_hex_char(#[trigger] tail[j]),
            owned_stem(file_name@) == Some(stem@),
        decreases 70 - i,
    {
        let c: char = rest[i];
        assert(tail[i - 6] == c);
        if !(('0' <= c && c <= '9') || ('a' <= c && c <= 'f') || ('A' <= c && c <= 'F')) {
            return false;
        }
        i += 1;
    }
    assert(tail[64] == rest@[70]);
    if rest[70] != '-' {
        return false;
    }
    let nonce = text_of(&rest, 71, rest.len());
    assert(nonce@ =~= tail.skip(65));
    match Uuid::parse_str(nonce.as_str()) {
        Ok(_) => true,
        Err(_) => false,
    }
}

/// The names that a cache gives to its files, finished or in the making, are told from all others
/// as its own.
pub proof fn law_cache_knows_its_own_files(revision: RevisionView, nonce: Uuid)
    requires
        revision.digest.len() == 32,
    ensures
        is_owned(payload_name(revision, nonce)),
        is_owned(partial_name(revision, nonce)),
{
    reveal_strlit("lease-");
    reveal_strlit("-");
    reveal_strlit(".");
    reveal_strlit(".payload");
    reveal_strlit(".partial");
    assert("lease-"@.len() == 6 && "-"@.len() == 1 && "."@.len() == 1);
    assert(".payload"@.len() == 8 && ".partial"@.len() == 8);
    let stem = lease_stem(revision, nonce);
    let digits = text::hex(revision.digest);
    assert(digits.len() == 64);
    let rest = stem.skip(6);
    assert(stem.subrange(0, 6) =~= "lease-"@);
    assert(rest =~= digits + "-"@ + ident::uuid_text(nonce));
    assert forall|i: int| 0 <= i < 64 implies is_hex_char(#[trigger] rest[i]) by {
        assert(rest[i] == digits[i]);
        assert(0 <= revision.digest[i / 2] as int / 16 < 16);
        assert(0 <= revision.digest[i / 2] as int % 16 < 16);
    }
    assert(rest[64] == "-"@[0]);
    assert(rest.skip(65) =~= ident::uuid_text(nonce));
    ident::law_uuid_text_reads_back(nonce);
    let done = payload_name(revision, nonce);
    assert(done.subrange(done.len() - 8, done.len() as int) =~= ".payload"@);
    assert(done.take(done.len() - 8) =~= stem);
    let making = partial_name(revision, nonce);
    assert(making.last() == ".partial"@[7]);
    assert(making.subrange(making.len() - 8, making.len() as int)[7] == making.last());
    assert(".partial"@[7] == 'l' && ".payload"@[7] == 'd');
    assert(without_suffix(making, ".payload"@) is None);
    assert(making[0] == "."@[0]);
    let inner = making.skip(1);
    assert(inner =~= stem + ".partial"@);
    assert(inner.subrange(inner.len() - 8, inner.len() as int) =~= ".partial"@);
    assert(inner.take(inner.len() - 8) =~= stem);
}

} // verus!
