//! The tables of the catalog: their rows, the model of all tables together, and row lookup.
use crate::catalog::{CatalogError, SourceFingerprint, MAX_STORED};
use crate::consistency;
use crate::delivery::{DeliveryState, LeaseToken, RetryPolicy, SubscriptionId, SubscriptionMode};
use crate::domain::{
    ArchiveEvent, CanonicalRevision, EventId, EventKind, EventView, IdentityView, LocationView,
    LogicalLocation, ProducerId, RecordId, RecordIdentity, RecordState, RevisionId, RevisionView,
};
use crate::text;
use crate::text::same_text;
use vstd::prelude::*;

verus! {

/// A cataloged record.
#[derive(Debug, Eq, PartialEq)]
pub struct RecordRow {
    pub id: RecordId,
    pub identity: RecordIdentity,
    pub location: LogicalLocation,
    pub record_version: u64,
    pub state: RecordState,
    pub current_revision_id: Option<RevisionId>,
    pub created_at_ms: i64,
    pub updated_at_ms: i64,
}

#[verifier::ext_equal]
pub struct RecordView {
    pub id: RecordId,
    pub identity: IdentityView,
    pub location: LocationView,
    pub record_version: u64,
    pub state: RecordState,
    pub current_revision_id: Option<RevisionId>,
    pub created_at_ms: i64,
    pub updated_at_ms: i64,
}

impl View for RecordRow {
    type V = RecordView;

    open spec fn view(&self) -> RecordView {
        RecordView {
            id: self.id,
            identity: self.identity@,
            location: self.location@,
            record_version: self.record_version,
            state: self.state,
            current_revision_id: self.current_revision_id,
            created_at_ms: self.created_at_ms,
            updated_at_ms: self.updated_at_ms,
        }
    }
}

/// A revision of a record that was observed at least once.
#[derive(Debug, Eq, PartialEq)]
pub struct RevisionRow {
    pub id: RevisionId,
    pub record_id: RecordId,
    pub revision: CanonicalRevision,
    pub first_observed_at_ms: i64,
    pub last_observed_at_ms: i64,
}

#[verifier::ext_equal]
pub struct RevisionRowView {
    pub id: RevisionId,
    pub record_id: RecordId,
    pub revision: RevisionView,
    pub first_observed_at_ms: i64,
    pub last_observed_at_ms: i64,
}

impl View for RevisionRow {
    type V = RevisionRowView;

    open spec fn view(&self) -> RevisionRowView {
        RevisionRowView {
            id: self.id,
            record_id: self.record_id,
            revision: self.revision@,
            first_observed_at_ms: self.first_observed_at_ms,
            last_observed_at_ms: self.last_observed_at_ms,
        }
    }
}

/// A registered source and its scan generations.
#[derive(Debug, Eq, PartialEq)]
pub struct SourceRow {
    pub source_id: String,
    pub producer_id: ProducerId,
    pub identity_schema_name: String,
    pub identity_schema_version: u32,
    pub next_generation: u64,
    pub last_complete_generation: u64,
}

#[verifier::ext_equal]
pub struct SourceRowView {
    pub source_id: Seq<char>,
    pub producer_id: ProducerId,
    pub identity_schema_name: Seq<char>,
    pub identity_schema_version: u32,
    pub next_generation: u64,
    pub last_complete_generation: u64,
}

impl View for SourceRow {
    type V = SourceRowView;

    open spec fn view(&self) -> SourceRowView {
        SourceRowView {
            source_id: self.source_id@,
            producer_id: self.producer_id,
            identity_schema_name: self.identity_schema_name@,
            identity_schema_version: self.identity_schema_version,
            next_generation: self.next_generation,
            last_complete_generation: self.last_complete_generation,
        }
    }
}

/// The last fingerprint seen at one location of one source.
#[derive(Debug, Eq, PartialEq)]
pub struct ObservationRow {
    pub source_id: String,
    pub location: LogicalLocation,
    pub fingerprint: SourceFingerprint,
    pub unchanged_observations: u64,
    pub hash_admitted: bool,
    pub last_seen_generation: u64,
}

#[verifier::ext_equal]
pub struct ObservationView {
    pub source_id: Seq<char>,
    pub location: LocationView,
    pub fingerprint: SourceFingerprint,
    pub unchanged_observations: u64,
    pub hash_admitted: bool,
    pub last_seen_generation: u64,
}

impl View for ObservationRow {
    type V = ObservationView;

    open spec fn view(&self) -> ObservationView {
        ObservationView {
            source_id: self.source_id@,
            location: self.location@,
            fingerprint: self.fingerprint,
            unchanged_observations: self.unchanged_observations,
            hash_admitted: self.hash_admitted,
            last_seen_generation: self.last_seen_generation,
        }
    }
}

/// The source that owns a record, and when it last saw it.
#[derive(Debug, Eq, PartialEq)]
pub struct SourceRecordRow {
    pub source_id: String,
    pub record_id: RecordId,
    pub last_seen_generation: u64,
}

#[verifier::ext_equal]
pub struct SourceRecordView {
    pub source_id: Seq<char>,
    pub record_id: RecordId,
    pub last_seen_generation: u64,
}

impl View for SourceRecordRow {
    type V = SourceRecordView;

    open spec fn view(&self) -> SourceRecordView {
        SourceRecordView {
            source_id: self.source_id@,
            record_id: self.record_id,
            last_seen_generation: self.last_seen_generation,
        }
    }
}

/// A record that complete scans have missed.
#[derive(Debug, Eq, PartialEq)]
pub struct CandidateRow {
    pub record_id: RecordId,
    pub source_id: String,
    pub first_missing_at_ms: i64,
    pub complete_guarded_scans: u64,
}

#[verifier::ext_equal]
pub struct CandidateView {
    pub record_id: RecordId,
    pub source_id: Seq<char>,
    pub first_missing_at_ms: i64,
    pub complete_guarded_scans: u64,
}

impl View for CandidateRow {
    type V = CandidateView;

    open spec fn view(&self) -> CandidateView {
        CandidateView {
            record_id: self.record_id,
            source_id: self.source_id@,
            first_missing_at_ms: self.first_missing_at_ms,
            complete_guarded_scans: self.complete_guarded_scans,
        }
    }
}

/// How far the integrity scrub of a source has come.
#[derive(Debug, Eq, PartialEq)]
pub struct ScrubRow {
    pub source_id: String,
    pub cursor: Option<LogicalLocation>,
    pub completed_cycles: u64,
    pub last_completed_at_ms: Option<i64>,
}

#[verifier::ext_equal]
pub struct ScrubRowView {
    pub source_id: Seq<char>,
    pub cursor: Option<LocationView>,
    pub completed_cycles: u64,
    pub last_completed_at_ms: Option<i64>,
}

impl View for ScrubRow {
    type V = ScrubRowView;

    open spec fn view(&self) -> ScrubRowView {
        ScrubRowView {
            source_id: self.source_id@,
            cursor: text::view_option(self.cursor),
            completed_cycles: self.completed_cycles,
            last_completed_at_ms: self.last_completed_at_ms,
        }
    }
}

/// A subscription epoch.
#[derive(Debug, Eq, PartialEq)]
pub struct SubscriptionRow {
    pub id: SubscriptionId,
    pub consumer_id: String,
    pub mode: SubscriptionMode,
    pub max_active_leases: u32,
    pub accepts_moves: bool,
    pub accepts_tombstones: bool,
    pub created_at_ms: i64,
    pub enabled: bool,
    pub retry_policy: RetryPolicy,
}

#[verifier::ext_equal]
pub struct SubscriptionView {
    pub id: SubscriptionId,
    pub consumer_id: Seq<char>,
    pub mode: SubscriptionMode,
    pub max_active_leases: u32,
    pub accepts_moves: bool,
    pub accepts_tombstones: bool,
    pub created_at_ms: i64,
    pub enabled: bool,
    pub retry_policy: RetryPolicy,
}

impl View for SubscriptionRow {
    type V = SubscriptionView;

    open spec fn view(&self) -> SubscriptionView {
        SubscriptionView {
            id: self.id,
            consumer_id: self.consumer_id@,
            mode: self.mode,
            max_active_leases: self.max_active_leases,
            accepts_moves: self.accepts_moves,
            accepts_tombstones: self.accepts_tombstones,
            created_at_ms: self.created_at_ms,
            enabled: self.enabled,
            retry_policy: self.retry_policy,
        }
    }
}

/// One event on its way to one subscription.
#[derive(Debug, Eq, PartialEq)]
pub struct DeliveryRow {
    pub id: u64,
    pub subscription_id: SubscriptionId,
    pub event_id: EventId,
    pub event_sequence: Option<u64>,
    pub record_id: RecordId,
    pub record_version: u64,
    pub kind: EventKind,
    pub revision_id: Option<RevisionId>,
    pub location: Option<LogicalLocation>,
    pub is_snapshot: bool,
    pub state: DeliveryState,
    pub attempts: u32,
    pub lease_token: Option<LeaseToken>,
    pub lease_expires_at_ms: Option<i64>,
    pub not_before_ms: i64,
    pub settled_at_ms: Option<i64>,
    pub settlement_reason: Option<String>,
    pub created_at_ms: i64,
}

#[verifier::ext_equal]
pub struct DeliveryView {
    pub id: u64,
    pub subscription_id: SubscriptionId,
    pub event_id: EventId,
    pub event_sequence: Option<u64>,
    pub record_id: RecordId,
    pub record_version: u64,
    pub kind: EventKind,
    pub revision_id: Option<RevisionId>,
    pub location: Option<LocationView>,
    pub is_snapshot: bool,
    pub state: DeliveryState,
    pub attempts: u32,
    pub lease_token: Option<LeaseToken>,
    pub lease_expires_at_ms: Option<i64>,
    pub not_before_ms: i64,
    pub settled_at_ms: Option<i64>,
    pub settlement_reason: Option<Seq<char>>,
    pub created_at_ms: i64,
}

impl View for DeliveryRow {
    type V = DeliveryView;

    open spec fn view(&self) -> DeliveryView {
        DeliveryView {
            id: self.id,
            subscription_id: self.subscription_id,
            event_id: self.event_id,
            event_sequence: self.event_sequence,
            record_id: self.record_id,
            record_version: self.record_version,
            kind: self.kind,
            revision_id: self.revision_id,
            location: text::view_option(self.location),
            is_snapshot: self.is_snapshot,
            state: self.state,
            attempts: self.attempts,
            lease_token: self.lease_token,
            lease_expires_at_ms: self.lease_expires_at_ms,
            not_before_ms: self.not_before_ms,
            settled_at_ms: self.settled_at_ms,
            settlement_reason: text::view_option(self.settlement_reason),
            created_at_ms: self.created_at_ms,
        }
    }
}

/// The durable catalog: every table, each in the order in which its rows were written.
#[derive(Debug, Eq, PartialEq)]
pub struct Catalog {
    pub records: Vec<RecordRow>,
    pub revisions: Vec<RevisionRow>,
    pub events: Vec<ArchiveEvent>,
    pub sources: Vec<SourceRow>,
    pub observations: Vec<ObservationRow>,
    pub source_records: Vec<SourceRecordRow>,
    pub candidates: Vec<CandidateRow>,
    pub scrubs: Vec<ScrubRow>,
    pub subscriptions: Vec<SubscriptionRow>,
    pub deliveries: Vec<DeliveryRow>,
}

/// The model of the catalog.
#[verifier::ext_equal]
pub struct LedgerView {
    pub records: Seq<RecordView>,
    pub revisions: Seq<RevisionRowView>,
    pub events: Seq<EventView>,
    pub sources: Seq<SourceRowView>,
    pub observations: Seq<ObservationView>,
    pub source_records: Seq<SourceRecordView>,
    pub candidates: Seq<CandidateView>,
    pub scrubs: Seq<ScrubRowView>,
    pub subscriptions: Seq<SubscriptionView>,
    pub deliveries: Seq<DeliveryView>,
}

impl View for Catalog {
    type V = LedgerView;

    open spec fn view(&self) -> LedgerView {
        LedgerView {
            records: text::views(self.records@),
            revisions: text::views(self.revisions@),
            events: text::views(self.events@),
            sources: text::views(self.sources@),
            observations: text::views(self.observations@),
            source_records: text::views(self.source_records@),
            candidates: text::views(self.candidates@),
            scrubs: text::views(self.scrubs@),
            subscriptions: text::views(self.subscriptions@),
            deliveries: text::views(self.deliveries@),
        }
    }
}

/// A row that can be stored as it is.
pub open spec fn record_ok(row: RecordView) -> bool {
    &&& row.identity.valid()
    &&& row.location.valid()
    &&& 1 <= row.record_version <= MAX_STORED
}

pub open spec fn revision_ok(row: RevisionRowView) -> bool {
    &&& row.revision.byte_length <= MAX_STORED
    &&& row.revision.digest.len() == 32
}

pub open spec fn event_ok(row: EventView) -> bool {
    &&& 1 <= row.sequence <= MAX_STORED
    &&& 1 <= row.record_version <= MAX_STORED
    &&& row.location matches Some(location) ==> location.valid()
}

pub open spec fn source_ok(row: SourceRowView) -> bool {
    &&& row.identity_schema_version != 0
    &&& row.next_generation <= MAX_STORED
    &&& row.last_complete_generation <= MAX_STORED
}

pub open spec fn fingerprint_ok(fingerprint: SourceFingerprint) -> bool {
    &&& fingerprint.byte_length <= MAX_STORED
    &&& fingerprint.device matches Some(device) ==> device <= MAX_STORED
    &&& fingerprint.inode matches Some(inode) ==> inode <= MAX_STORED
}

pub open spec fn observation_ok(row: ObservationView) -> bool {
    &&& row.location.valid()
    &&& fingerprint_ok(row.fingerprint)
    &&& 1 <= row.unchanged_observations <= MAX_STORED
    &&& row.last_seen_generation <= MAX_STORED
}

pub open spec fn source_record_ok(row: SourceRecordView) -> bool {
    row.last_seen_generation <= MAX_STORED
}

pub open spec fn candidate_ok(row: CandidateView) -> bool {
    1 <= row.complete_guarded_scans <= MAX_STORED
}

pub open spec fn scrub_ok(row: ScrubRowView) -> bool {
    &&& row.completed_cycles <= MAX_STORED
    &&& row.cursor matches Some(location) ==> location.valid()
}

pub open spec fn subscription_ok(row: SubscriptionView) -> bool {
    &&& row.max_active_leases != 0
    &&& row.retry_policy.valid()
    &&& row.retry_policy.max_backoff_ms <= MAX_STORED
}

pub open spec fn delivery_ok(row: DeliveryView) -> bool {
    &&& 1 <= row.id <= MAX_STORED
    &&& row.event_sequence matches Some(sequence) ==> sequence <= MAX_STORED
    &&& 1 <= row.record_version <= MAX_STORED
    &&& row.location matches Some(location) ==> location.valid()
}

/// Event numbers ascend.
pub open spec fn events_ascend(events: Seq<EventView>) -> bool {
    forall|i: int, j: int|
        0 <= i < j < events.len() ==> (#[trigger] events[i]).sequence < (#[trigger] events[j]).sequence
}

/// Delivery numbers ascend.
pub open spec fn deliveries_ascend(deliveries: Seq<DeliveryView>) -> bool {
    forall|i: int, j: int|
        0 <= i < j < deliveries.len() ==> (#[trigger] deliveries[i]).id < (#[trigger] deliveries[j]).id
}

impl LedgerView {
    /// Every row can be stored, and numbered rows stand in ascending order.
    pub open spec fn wf(self) -> bool {
        &&& forall|i: int| 0 <= i < self.records.len() ==> record_ok(#[trigger] self.records[i])
        &&& forall|i: int| 0 <= i < self.revisions.len() ==> revision_ok(#[trigger] self.revisions[i])
        &&& forall|i: int| 0 <= i < self.events.len() ==> event_ok(#[trigger] self.events[i])
        &&& forall|i: int| 0 <= i < self.sources.len() ==> source_ok(#[trigger] self.sources[i])
        &&& forall|i: int|
            0 <= i < self.observations.len() ==> observation_ok(#[trigger] self.observations[i])
        &&& forall|i: int|
            0 <= i < self.source_records.len() ==> source_record_ok(
                #[trigger] self.source_records[i],
            )
        &&& forall|i: int|
            0 <= i < self.candidates.len() ==> candidate_ok(#[trigger] self.candidates[i])
        &&& forall|i: int| 0 <= i < self.scrubs.len() ==> scrub_ok(#[trigger] self.scrubs[i])
        &&& forall|i: int|
            0 <= i < self.subscriptions.len() ==> subscription_ok(#[trigger] self.subscriptions[i])
        &&& forall|i: int|
            0 <= i < self.deliveries.len() ==> delivery_ok(#[trigger] self.deliveries[i])
        &&& events_ascend(self.events)
        &&& deliveries_ascend(self.deliveries)
    }

    /// The number of the last event, or zero.
    pub open spec fn latest_sequence(self) -> u64 {
        if self.events.len() == 0 {
            0
        } else {
            self.events.last().sequence
        }
    }

    /// The number of the last delivery, or zero.
    pub open spec fn latest_delivery(self) -> u64 {
        if self.deliveries.len() == 0 {
            0
        } else {
            self.deliveries.last().id
        }
    }
}

/// Whether `at` is the first position of `items` that `accepts` takes.
pub open spec fn is_first<T>(items: Seq<T>, accepts: spec_fn(T) -> bool, at: int) -> bool {
    &&& 0 <= at < items.len()
    &&& accepts(items[at])
    &&& forall|j: int| 0 <= j < at ==> !accepts(#[trigger] items[j])
}

/// The first position of `items` that `accepts` takes.
pub open spec fn find_first<T>(items: Seq<T>, accepts: spec_fn(T) -> bool) -> Option<int> {
    if exists|at: int| is_first(items, accepts, at) {
        Some(choose|at: int| is_first(items, accepts, at))
    } else {
        None
    }
}

pub proof fn lemma_found<T>(items: Seq<T>, accepts: spec_fn(T) -> bool, at: int)
    requires
        is_first(items, accepts, at),
    ensures
        find_first(items, accepts) == Some(at),
{
    let found = choose|at: int| is_first(items, accepts, at);
    assert(is_first(items, accepts, found));
    if found < at {
        assert(!accepts(items[found]));
    } else if at < found {
        assert(!accepts(items[at]));
    }
}

pub proof fn lemma_not_found<T>(items: Seq<T>, accepts: spec_fn(T) -> bool)
    requires
        forall|j: int| 0 <= j < items.len() ==> !accepts(#[trigger] items[j]),
    ensures
        find_first(items, accepts) is None,
{
}

/// What `find_first` gives is a first position, or no position is taken.
pub proof fn lemma_find_first<T>(items: Seq<T>, accepts: spec_fn(T) -> bool)
    ensures
        match find_first(items, accepts) {
            Some(at) => is_first(items, accepts, at),
            None => forall|j: int| 0 <= j < items.len() ==> !accepts(#[trigger] items[j]),
        },
{
    if find_first(items, accepts) is None {
        assert forall|j: int| 0 <= j < items.len() implies !accepts(#[trigger] items[j]) by {
            if accepts(items[j]) {
                lemma_first_exists(items, accepts, j);
            }
        }
    }
}

/// Where some position is taken there is a first one.
proof fn lemma_first_exists<T>(items: Seq<T>, accepts: spec_fn(T) -> bool, at: int)
    requires
        0 <= at < items.len(),
        accepts(items[at]),
    ensures
        exists|i: int| is_first(items, accepts, i),
    decreases at,
{
    if forall|j: int| 0 <= j < at ==> !accepts(#[trigger] items[j]) {
        assert(is_first(items, accepts, at));
    } else {
        let j = choose|j: int| 0 <= j < at && accepts(#[trigger] items[j]);
        lemma_first_exists(items, accepts, j);
    }
}

pub open spec fn has_identity(identity: IdentityView) -> spec_fn(RecordView) -> bool {
    |row: RecordView| row.identity == identity
}

pub open spec fn has_record_id(id: RecordId) -> spec_fn(RecordView) -> bool {
    |row: RecordView| row.id == id
}

pub open spec fn has_revision_id(id: RevisionId) -> spec_fn(RevisionRowView) -> bool {
    |row: RevisionRowView| row.id == id
}

pub open spec fn has_revision(record_id: RecordId, revision: RevisionView) -> spec_fn(
    RevisionRowView,
) -> bool {
    |row: RevisionRowView| row.record_id == record_id && row.revision == revision
}

pub open spec fn has_source_id(source_id: Seq<char>) -> spec_fn(SourceRowView) -> bool {
    |row: SourceRowView| row.source_id == source_id
}

pub open spec fn has_subscription_id(id: SubscriptionId) -> spec_fn(SubscriptionView) -> bool {
    |row: SubscriptionView| row.id == id
}

impl LedgerView {
    /// The position of the record with this identity.
    pub open spec fn record_with(self, identity: IdentityView) -> Option<int> {
        find_first(self.records, has_identity(identity))
    }

    /// The position of the record with this id.
    pub open spec fn record_at(self, id: RecordId) -> Option<int> {
        find_first(self.records, has_record_id(id))
    }

    /// The bytes that a revision id stands for.
    pub open spec fn revision_bytes(self, id: Option<RevisionId>) -> Option<RevisionView> {
        match id {
            Some(id) => match find_first(self.revisions, has_revision_id(id)) {
                Some(at) => Some(self.revisions[at].revision),
                None => None,
            },
            None => None,
        }
    }

    /// The position of the source with this id.
    pub open spec fn source_at(self, source_id: Seq<char>) -> Option<int> {
        find_first(self.sources, has_source_id(source_id))
    }

    /// The position of the subscription with this id.
    pub open spec fn subscription_at(self, id: SubscriptionId) -> Option<int> {
        find_first(self.subscriptions, has_subscription_id(id))
    }

    /// Whether an event or a delivery already bears this event id.
    pub open spec fn event_id_used(self, id: EventId) -> bool {
        ||| exists|i: int| 0 <= i < self.events.len() && (#[trigger] self.events[i]).id == id
        ||| exists|i: int|
            0 <= i < self.deliveries.len() && (#[trigger] self.deliveries[i]).event_id == id
    }
}

impl Catalog {
    /// Every row can be stored, and numbered rows stand in ascending order.
    pub open spec fn wf(&self) -> bool {
        self@.wf()
    }

    /// A catalog without rows.
    pub fn open_in_memory() -> (result: Result<Catalog, CatalogError>)
        ensures
            result is Ok,
            result->Ok_0.wf(),
            consistency::consistent(result->Ok_0@),
            result->Ok_0@ == (LedgerView {
                records: Seq::empty(),
                revisions: Seq::empty(),
                events: Seq::empty(),
                sources: Seq::empty(),
                observations: Seq::empty(),
                source_records: Seq::empty(),
                candidates: Seq::empty(),
                scrubs: Seq::empty(),
                subscriptions: Seq::empty(),
                deliveries: Seq::empty(),
            }),
    {
        Ok(
            Catalog {
                records: Vec::new(),
                revisions: Vec::new(),
                events: Vec::new(),
                sources: Vec::new(),
                observations: Vec::new(),
                source_records: Vec::new(),
                candidates: Vec::new(),
                scrubs: Vec::new(),
                subscriptions: Vec::new(),
                deliveries: Vec::new(),
            },
        )
    }

    /// The position of the record with this identity.
    pub(crate) fn find_record(&self, identity: &RecordIdentity) -> (result: Option<usize>)
        ensures
            match result {
                Some(at) => self@.record_with(identity@) == Some(at as int) && at
                    < self.records@.len() && self.records@[at as int]@.identity == identity@,
                None => self@.record_with(identity@) is None,
            },
    {
        let mut i: usize = 0;
        while i < self.records.len()
            invariant
                i <= self.records@.len(),
                forall|j: int| 0 <= j < i ==> self@.records[j].identity != identity@,
            decreases self.records@.len() - i,
        {
            if self.records[i].identity.same(identity) {
                proof {
                    lemma_found(self@.records, has_identity(identity@), i as int);
                }
                return Some(i);
            }
            i += 1;
        }
        proof {
            lemma_not_found(self@.records, has_identity(identity@));
        }
        None
    }

    /// The position of the record with this id.
    pub(crate) fn find_record_by_id(&self, id: RecordId) -> (result: Option<usize>)
        ensures
            match result {
                Some(at) => self@.record_at(id) == Some(at as int) && at < self.records@.len()
                    && self.records@[at as int]@.id == id,
                None => self@.record_at(id) is None,
            },
    {
        let mut i: usize = 0;
        while i < self.records.len()
            invariant
                i <= self.records@.len(),
                forall|j: int| 0 <= j < i ==> self@.records[j].id != id,
            decreases self.records@.len() - i,
        {
            if self.records[i].id == id {
                proof {
                    lemma_found(self@.records, has_record_id(id), i as int);
                }
                return Some(i);
            }
            i += 1;
        }
        proof {
            lemma_not_found(self@.records, has_record_id(id));
        }
        None
    }

    /// The position of the revision with this id.
    pub(crate) fn find_revision_by_id(&self, id: RevisionId) -> (result: Option<usize>)
        ensures
            match result {
                Some(at) => find_first(self@.revisions, has_revision_id(id)) == Some(at as int)
                    && at < self.revisions@.len(),
                None => find_first(self@.revisions, has_revision_id(id)) is None,
            },
    {
        let mut i: usize = 0;
        while i < self.revisions.len()
            invariant
                i <= self.revisions@.len(),
                forall|j: int| 0 <= j < i ==> self@.revisions[j].id != id,
            decreases self.revisions@.len() - i,
        {
            if self.revisions[i].id == id {
                proof {
                    lemma_found(self@.revisions, has_revision_id(id), i as int);
                }
                return Some(i);
            }
            i += 1;
        }
        proof {
            lemma_not_found(self@.revisions, has_revision_id(id));
        }
        None
    }

    /// The bytes that a revision id stands for.
    pub(crate) fn revision_bytes(&self, id: Option<RevisionId>) -> (result: Option<
        CanonicalRevision,
    >)
        ensures
            text::view_option(result) == self@.revision_bytes(id),
    {
        match id {
            Some(id) => match self.find_revision_by_id(id) {
                Some(at) => {
                    assert(self@.revisions[at as int].revision
                        == self.revisions@[at as int].revision@);
                    Some(self.revisions[at].revision)
                },
                None => None,
            },
            None => None,
        }
    }

    /// The position of this revision of this record.
    pub(crate) fn find_revision(
        &self,
        record_id: RecordId,
        revision: &CanonicalRevision,
    ) -> (result: Option<usize>)
        ensures
            match result {
                Some(at) => find_first(self@.revisions, has_revision(record_id, revision@)) == Some(
                    at as int,
                ) && at < self.revisions@.len(),
                None => find_first(self@.revisions, has_revision(record_id, revision@)) is None,
            },
    {
        let mut i: usize = 0;
        while i < self.revisions.len()
            invariant
                i <= self.revisions@.len(),
                forall|j: int|
                    0 <= j < i ==> !(#[trigger] has_revision(record_id, revision@)(
                        self@.revisions[j],
                    )),
            decreases self.revisions@.len() - i,
        {
            if self.revisions[i].record_id == record_id && self.revisions[i].revision.same(
                revision,
            ) {
                proof {
                    assert forall|j: int| 0 <= j < i implies !has_revision(record_id, revision@)(
                        #[trigger] self@.revisions[j],
                    ) by {
                        assert(!has_revision(record_id, revision@)(self@.revisions[j]));
                    }
                    lemma_found(self@.revisions, has_revision(record_id, revision@), i as int);
                }
                return Some(i);
            }
            assert(!has_revision(record_id, revision@)(self@.revisions[i as int]));
            i += 1;
        }
        proof {
            assert forall|j: int| 0 <= j < self@.revisions.len() implies !has_revision(
                record_id,
                revision@,
            )(#[trigger] self@.revisions[j]) by {
                assert(!has_revision(record_id, revision@)(self@.revisions[j]));
            }
            lemma_not_found(self@.revisions, has_revision(record_id, revision@));
        }
        None
    }

    /// The position of the source with this id.
    pub(crate) fn find_source(&self, source_id: &str) -> (result: Option<usize>)
        ensures
            match result {
                Some(at) => self@.source_at(source_id@) == Some(at as int) && at
                    < self.sources@.len() && self.sources@[at as int]@.source_id == source_id@,
                None => self@.source_at(source_id@) is None,
            },
    {
        let mut i: usize = 0;
        while i < self.sources.len()
            invariant
                i <= self.sources@.len(),
                forall|j: int| 0 <= j < i ==> self@.sources[j].source_id != source_id@,
            decreases self.sources@.len() - i,
        {
            if same_text(self.sources[i].source_id.as_str(), source_id) {
                proof {
                    lemma_found(self@.sources, has_source_id(source_id@), i as int);
                }
                return Some(i);
            }
            i += 1;
        }
        proof {
            lemma_not_found(self@.sources, has_source_id(source_id@));
        }
        None
    }

    /// The position of the subscription with this id.
    pub(crate) fn find_subscription(&self, id: SubscriptionId) -> (result: Option<usize>)
        ensures
            match result {
                Some(at) => self@.subscription_at(id) == Some(at as int) && at
                    < self.subscriptions@.len() && self.subscriptions@[at as int]@.id == id,
                None => self@.subscription_at(id) is None,
            },
    {
        let mut i: usize = 0;
        while i < self.subscriptions.len()
            invariant
                i <= self.subscriptions@.len(),
                forall|j: int| 0 <= j < i ==> self@.subscriptions[j].id != id,
            decreases self.subscriptions@.len() - i,
        {
            if self.subscriptions[i].id == id {
                proof {
                    lemma_found(self@.subscriptions, has_subscription_id(id), i as int);
                }
                return Some(i);
            }
            i += 1;
        }
        proof {
            lemma_not_found(self@.subscriptions, has_subscription_id(id));
        }
        None
    }

    /// Whether an event or a delivery already bears this event id.
    pub(crate) fn event_id_used(&self, id: EventId) -> (result: bool)
        ensures
            result == self@.event_id_used(id),
    {
        let mut i: usize = 0;
        while i < self.events.len()
            invariant
                i <= self.events@.len(),
                forall|j: int| 0 <= j < i ==> (#[trigger] self@.events[j]).id != id,
            decreases self.events@.len() - i,
        {
            if self.events[i].id == id {
                assert(self@.events[i as int].id == id);
                return true;
            }
            i += 1;
        }
        let mut k: usize = 0;
        while k < self.deliveries.len()
            invariant
                k <= self.deliveries@.len(),
                forall|j: int| 0 <= j < self@.events.len() ==> (#[trigger] self@.events[j]).id != id,
                forall|j: int| 0 <= j < k ==> (#[trigger] self@.deliveries[j]).event_id != id,
            decreases self.deliveries@.len() - k,
        {
            if self.deliveries[k].event_id == id {
                assert(self@.deliveries[k as int].event_id == id);
                return true;
            }
            k += 1;
        }
        false
    }

    /// The number of the last event, or zero.
    pub fn latest_event_sequence(&self) -> (result: Result<u64, CatalogError>)
        ensures
            result == Ok::<u64, CatalogError>(self@.latest_sequence()),
    {
        Ok(self.last_sequence())
    }

    /// The number of the last event, or zero.
    pub(crate) fn last_sequence(&self) -> (result: u64)
        ensures
            result == self@.latest_sequence(),
    {
        if self.events.len() == 0 {
            0
        } else {
            self.events[self.events.len() - 1].sequence
        }
    }

    /// The number of the last delivery, or zero.
    pub(crate) fn latest_delivery_id(&self) -> (result: u64)
        ensures
            result == self@.latest_delivery(),
    {
        if self.deliveries.len() == 0 {
            0
        } else {
            self.deliveries[self.deliveries.len() - 1].id
        }
    }

    /// The layout of stored rows.
    pub fn schema_version(&self) -> (result: Result<i64, CatalogError>)
        ensures
            result == Ok::<i64, CatalogError>(7i64),
    {
        Ok(crate::catalog::SCHEMA_VERSION)
    }
}

impl Clone for RecordRow {
    fn clone(&self) -> (result: RecordRow)
        ensures
            result@ == self@,
    {
        RecordRow {
            id: self.id,
            identity: self.identity.clone(),
            location: self.location.clone(),
            record_version: self.record_version,
            state: self.state,
            current_revision_id: self.current_revision_id,
            created_at_ms: self.created_at_ms,
            updated_at_ms: self.updated_at_ms,
        }
    }
}

impl Clone for RevisionRow {
    fn clone(&self) -> (result: RevisionRow)
        ensures
            result@ == self@,
    {
        RevisionRow {
            id: self.id,
            record_id: self.record_id,
            revision: self.revision,
            first_observed_at_ms: self.first_observed_at_ms,
            last_observed_at_ms: self.last_observed_at_ms,
        }
    }
}

impl Clone for SourceRow {
    fn clone(&self) -> (result: SourceRow)
        ensures
            result@ == self@,
    {
        SourceRow {
            source_id: self.source_id.clone(),
            producer_id: self.producer_id,
            identity_schema_name: self.identity_schema_name.clone(),
            identity_schema_version: self.identity_schema_version,
            next_generation: self.next_generation,
            last_complete_generation: self.last_complete_generation,
        }
    }
}

impl Clone for ObservationRow {
    fn clone(&self) -> (result: ObservationRow)
        ensures
            result@ == self@,
    {
        ObservationRow {
            source_id: self.source_id.clone(),
            location: self.location.clone(),
            fingerprint: self.fingerprint,
            unchanged_observations: self.unchanged_observations,
            hash_admitted: self.hash_admitted,
            last_seen_generation: self.last_seen_generation,
        }
    }
}

impl Clone for SourceRecordRow {
    fn clone(&self) -> (result: SourceRecordRow)
        ensures
            result@ == self@,
    {
        SourceRecordRow {
            source_id: self.source_id.clone(),
            record_id: self.record_id,
            last_seen_generation: self.last_seen_generation,
        }
    }
}

impl Clone for CandidateRow {
    fn clone(&self) -> (result: CandidateRow)
        ensures
            result@ == self@,
    {
        CandidateRow {
            record_id: self.record_id,
            source_id: self.source_id.clone(),
            first_missing_at_ms: self.first_missing_at_ms,
            complete_guarded_scans: self.complete_guarded_scans,
        }
    }
}

impl Clone for ScrubRow {
    fn clone(&self) -> (result: ScrubRow)
        ensures
            result@ == self@,
    {
        ScrubRow {
            source_id: self.source_id.clone(),
            cursor: crate::domain::copy_location(&self.cursor),
            completed_cycles: self.completed_cycles,
            last_completed_at_ms: self.last_completed_at_ms,
        }
    }
}

impl Clone for SubscriptionRow {
    fn clone(&self) -> (result: SubscriptionRow)
        ensures
            result@ == self@,
    {
        SubscriptionRow {
            id: self.id,
            consumer_id: self.consumer_id.clone(),
            mode: self.mode,
            max_active_leases: self.max_active_leases,
            accepts_moves: self.accepts_moves,
            accepts_tombstones: self.accepts_tombstones,
            created_at_ms: self.created_at_ms,
            enabled: self.enabled,
            retry_policy: self.retry_policy,
        }
    }
}

impl Clone for Catalog {
    fn clone(&self) -> (result: Catalog)
        ensures
            result@ == self@,
    {
        let copy = Catalog {
            records: self.records.clone(),
            revisions: self.revisions.clone(),
            events: self.events.clone(),
            sources: self.sources.clone(),
            observations: self.observations.clone(),
            source_records: self.source_records.clone(),
            candidates: self.candidates.clone(),
            scrubs: self.scrubs.clone(),
            subscriptions: self.subscriptions.clone(),
            deliveries: self.deliveries.clone(),
        };
        assert(copy@.records =~= self@.records);
        assert(copy@.revisions =~= self@.revisions);
        assert(copy@.events =~= self@.events);
        assert(copy@.sources =~= self@.sources);
        assert(copy@.observations =~= self@.observations);
        assert(copy@.source_records =~= self@.source_records);
        assert(copy@.candidates =~= self@.candidates);
        assert(copy@.scrubs =~= self@.scrubs);
        assert(copy@.subscriptions =~= self@.subscriptions);
        assert(copy@.deliveries =~= self@.deliveries);
        copy
    }
}

} // verus!
