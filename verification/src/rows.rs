//! Catalog rows as database columns: what is written reads back, and what cannot be a row is
//! refused.
use vstd::prelude::*;

use crate::catalog::{as_u64, CatalogError, CatalogErrorView, SourceFingerprint, MAX_STORED};
use crate::delivery;
use crate::delivery::{DeliveryState, LeaseToken, RetryPolicy, SubscriptionId, SubscriptionMode};
use crate::domain;
use crate::domain::{
    ArchiveEvent, CanonicalRevision, DomainErrorView, EventId, EventKind, EventView, IdentityView,
    LocationView, LogicalLocation, ProducerId, RecordId, RecordIdentity, RecordState, RevisionId,
    RevisionView,
};
use crate::ident;
use crate::ident::Uuid;
use crate::ledger;
use crate::ledger::{
    CandidateRow, CandidateView, Catalog, DeliveryRow, DeliveryView, LedgerView, ObservationRow,
    ObservationView, RecordRow, RecordView, RevisionRow, RevisionRowView, ScrubRow, ScrubRowView,
    SourceRecordRow, SourceRecordView, SourceRow, SourceRowView, SubscriptionRow, SubscriptionView,
};
use crate::text;
use crate::text::{concat2, debug_text};

verus! {

/// The identifier that a blob holds.
pub open spec fn uuid_of(blob: Seq<u8>) -> Result<Uuid, CatalogErrorView> {
    if blob.len() == 16 {
        Ok(Uuid { value: ident::big_endian(blob) as u128 })
    } else {
        Err(CatalogErrorView::Corrupt("invalid UUID blob"@))
    }
}

/// The identifier that an optional blob holds.
pub open spec fn optional_uuid_of(blob: Option<Seq<u8>>) -> Result<Option<Uuid>, CatalogErrorView> {
    match blob {
        None => Ok(None),
        Some(blob) => match uuid_of(blob) {
            Ok(id) => Ok(Some(id)),
            Err(error) => Err(error),
        },
    }
}

/// The number from zero up that an integer holds.
pub open spec fn whole_of(value: i64, field: Seq<char>) -> Result<u64, CatalogErrorView> {
    if value < 0 {
        Err(CatalogErrorView::Corrupt("negative "@ + field))
    } else {
        Ok(value as u64)
    }
}

/// The number from zero up that an optional integer holds.
pub open spec fn optional_whole_of(value: Option<i64>, field: Seq<char>) -> Result<
    Option<u64>,
    CatalogErrorView,
> {
    match value {
        None => Ok(None),
        Some(value) => match whole_of(value, field) {
            Ok(value) => Ok(Some(value)),
            Err(error) => Err(error),
        },
    }
}

/// The 32-bit number from zero up that an integer holds.
pub open spec fn small_of(value: i64, reason: Seq<char>) -> Result<u32, CatalogErrorView> {
    if 0 <= value <= u32::MAX {
        Ok(value as u32)
    } else {
        Err(CatalogErrorView::Corrupt(reason))
    }
}

/// The location that two texts hold.
pub open spec fn location_of(root_role: Seq<char>, path: Seq<char>) -> Result<
    LocationView,
    CatalogErrorView,
> {
    let location = LocationView { root_role, source_relative_path: path };
    if location.valid() {
        Ok(location)
    } else {
        Err(CatalogErrorView::Domain(location.refusal()))
    }
}

/// The location that two optional texts hold: both or neither must be there.
pub open spec fn optional_location_of(
    root_role: Option<Seq<char>>,
    path: Option<Seq<char>>,
    reason: Seq<char>,
) -> Result<Option<LocationView>, CatalogErrorView> {
    match (root_role, path) {
        (Some(root_role), Some(path)) => match location_of(root_role, path) {
            Ok(location) => Ok(Some(location)),
            Err(error) => Err(error),
        },
        (None, None) => Ok(None),
        _ => Err(CatalogErrorView::Corrupt(reason)),
    }
}

/// The digest that a blob holds.
pub open spec fn digest_of(blob: Seq<u8>) -> Result<Seq<u8>, CatalogErrorView> {
    if blob.len() == 32 {
        Ok(blob)
    } else {
        Err(CatalogErrorView::Corrupt("invalid BLAKE3 digest length"@))
    }
}

/// The event kind that a text names.
pub open spec fn kind_of(name: Seq<char>) -> Result<EventKind, CatalogErrorView> {
    if name == domain::event_kind_name(EventKind::RevisionCommitted) {
        Ok(EventKind::RevisionCommitted)
    } else if name == domain::event_kind_name(EventKind::LocationChanged) {
        Ok(EventKind::LocationChanged)
    } else if name == domain::event_kind_name(EventKind::RecordTombstoned) {
        Ok(EventKind::RecordTombstoned)
    } else if name == domain::event_kind_name(EventKind::RecordRestored) {
        Ok(EventKind::RecordRestored)
    } else {
        Err(CatalogErrorView::Domain(DomainErrorView::CorruptState(name)))
    }
}

/// The record state that a text names.
pub open spec fn state_of(name: Seq<char>) -> Result<RecordState, CatalogErrorView> {
    if name == domain::record_state_name(RecordState::Active) {
        Ok(RecordState::Active)
    } else if name == domain::record_state_name(RecordState::Tombstoned) {
        Ok(RecordState::Tombstoned)
    } else {
        Err(CatalogErrorView::Domain(DomainErrorView::CorruptState(name)))
    }
}

/// The subscription mode that a text names.
pub open spec fn mode_of(name: Seq<char>) -> Result<SubscriptionMode, CatalogErrorView> {
    if name == delivery::mode_name(SubscriptionMode::ReplayEvents) {
        Ok(SubscriptionMode::ReplayEvents)
    } else if name == delivery::mode_name(SubscriptionMode::RebuildCurrent) {
        Ok(SubscriptionMode::RebuildCurrent)
    } else {
        Err(
            CatalogErrorView::Corrupt("unknown subscription mode "@ + text::debug_form(name)),
        )
    }
}

/// Whether a text names a delivery state.
pub open spec fn names_delivery_state(name: Seq<char>) -> bool {
    exists|state: DeliveryState| name == #[trigger] delivery::delivery_state_name(state)
}

/// The delivery state that a text names.
pub open spec fn delivery_state_of(name: Seq<char>) -> Result<DeliveryState, CatalogErrorView> {
    if names_delivery_state(name) {
        Ok(choose|state: DeliveryState| name == #[trigger] delivery::delivery_state_name(state))
    } else {
        Err(CatalogErrorView::Corrupt("unknown delivery state "@ + text::debug_form(name)))
    }
}

/// The retry policy that three integers hold.
pub open spec fn policy_of(max_attempts: i64, initial: i64, maximum: i64) -> Result<
    RetryPolicy,
    CatalogErrorView,
> {
    match small_of(max_attempts, "invalid max attempts"@) {
        Err(error) => Err(error),
        Ok(max_attempts) => match whole_of(initial, "initial retry backoff"@) {
            Err(error) => Err(error),
            Ok(initial_backoff_ms) => match whole_of(maximum, "maximum retry backoff"@) {
                Err(error) => Err(error),
                Ok(max_backoff_ms) => {
                    let policy = RetryPolicy { max_attempts, initial_backoff_ms, max_backoff_ms };
                    if policy.valid() {
                        Ok(policy)
                    } else {
                        Err(
                            CatalogErrorView::Corrupt(
                                "retry policy requires positive attempts and max_backoff_ms >= initial_backoff_ms"@,
                            ),
                        )
                    }
                },
            },
        },
    }
}

proof fn lemma_kind_named(value: EventKind)
    ensures
        kind_of(domain::event_kind_name(value)) == Ok::<EventKind, CatalogErrorView>(value),
{
    if domain::event_kind_name(value) == domain::event_kind_name(EventKind::RevisionCommitted) {
        domain::law_event_kind_name_injective(value, EventKind::RevisionCommitted);
    }
    if domain::event_kind_name(value) == domain::event_kind_name(EventKind::LocationChanged) {
        domain::law_event_kind_name_injective(value, EventKind::LocationChanged);
    }
    if domain::event_kind_name(value) == domain::event_kind_name(EventKind::RecordTombstoned) {
        domain::law_event_kind_name_injective(value, EventKind::RecordTombstoned);
    }
    if domain::event_kind_name(value) == domain::event_kind_name(EventKind::RecordRestored) {
        domain::law_event_kind_name_injective(value, EventKind::RecordRestored);
    }
}

proof fn lemma_state_named(value: RecordState)
    ensures
        state_of(domain::record_state_name(value)) == Ok::<RecordState, CatalogErrorView>(value),
{
    if domain::record_state_name(value) == domain::record_state_name(RecordState::Active) {
        domain::law_record_state_name_injective(value, RecordState::Active);
    }
    if domain::record_state_name(value) == domain::record_state_name(RecordState::Tombstoned) {
        domain::law_record_state_name_injective(value, RecordState::Tombstoned);
    }
}

proof fn lemma_mode_named(value: SubscriptionMode)
    ensures
        mode_of(delivery::mode_name(value)) == Ok::<SubscriptionMode, CatalogErrorView>(value),
{
    if delivery::mode_name(value) == delivery::mode_name(SubscriptionMode::ReplayEvents) {
        delivery::law_mode_name_injective(value, SubscriptionMode::ReplayEvents);
    }
    if delivery::mode_name(value) == delivery::mode_name(SubscriptionMode::RebuildCurrent) {
        delivery::law_mode_name_injective(value, SubscriptionMode::RebuildCurrent);
    }
}

proof fn lemma_delivery_state_named(value: DeliveryState)
    ensures
        delivery_state_of(delivery::delivery_state_name(value)) == Ok::<
            DeliveryState,
            CatalogErrorView,
        >(value),
{
    let name = delivery::delivery_state_name(value);
    assert(names_delivery_state(name));
    let chosen = choose|state: DeliveryState|
        name == #[trigger] delivery::delivery_state_name(state);
    delivery::law_delivery_state_name_injective(value, chosen);
}

/// A value read, or the error, with its texts as sequences.
pub open spec fn read_outcome<T: View>(result: Result<T, CatalogError>) -> Result<
    T::V,
    CatalogErrorView,
> {
    match result {
        Ok(value) => Ok(value@),
        Err(error) => Err(error@),
    }
}

/// A plain value read, or the error with its text as a sequence.
pub open spec fn plain_outcome<T>(result: Result<T, CatalogError>) -> Result<T, CatalogErrorView> {
    match result {
        Ok(value) => Ok(value),
        Err(error) => Err(error@),
    }
}

/// The identifier that a blob holds.
pub fn uuid_from_blob(blob: &[u8]) -> (result: Result<Uuid, CatalogError>)
    ensures
        plain_outcome(result) == uuid_of(blob@),
{
    match Uuid::from_slice(blob) {
        Some(id) => Ok(id),
        None => Err(CatalogError::Corrupt("invalid UUID blob".to_owned())),
    }
}

/// The identifier that an optional blob holds.
pub fn optional_uuid_from_blob(blob: &Option<Vec<u8>>) -> (result: Result<
    Option<Uuid>,
    CatalogError,
>)
    ensures
        plain_outcome(result) == optional_uuid_of(text::view_option(*blob)),
{
    match blob {
        None => Ok(None),
        Some(blob) => match uuid_from_blob(blob.as_slice()) {
            Ok(id) => Ok(Some(id)),
            Err(error) => Err(error),
        },
    }
}

fn whole(value: i64, field: &str) -> (result: Result<u64, CatalogError>)
    ensures
        plain_outcome(result) == whole_of(value, field@),
{
    as_u64(value, field)
}

fn optional_whole(value: Option<i64>, field: &str) -> (result: Result<Option<u64>, CatalogError>)
    ensures
        plain_outcome(result) == optional_whole_of(value, field@),
{
    match value {
        None => Ok(None),
        Some(value) => match whole(value, field) {
            Ok(value) => Ok(Some(value)),
            Err(error) => Err(error),
        },
    }
}

fn small(value: i64, reason: &str) -> (result: Result<u32, CatalogError>)
    ensures
        plain_outcome(result) == small_of(value, reason@),
{
    if 0 <= value && value <= 0xffff_ffff {
        Ok(value as u32)
    } else {
        Err(CatalogError::Corrupt(reason.to_owned()))
    }
}

fn read_location(root_role: &str, path: &str) -> (result: Result<LogicalLocation, CatalogError>)
    ensures
        read_outcome(result) == location_of(root_role@, path@),
{
    match LogicalLocation::new(root_role, path) {
        Ok(location) => Ok(location),
        Err(error) => Err(CatalogError::Domain(error)),
    }
}

fn read_optional_location(
    root_role: &Option<String>,
    path: &Option<String>,
    reason: &str,
) -> (result: Result<Option<LogicalLocation>, CatalogError>)
    ensures
        (match result {
            Ok(location) => Ok(text::view_option(location)),
            Err(error) => Err(error@),
        }) == optional_location_of(
            text::view_option(*root_role),
            text::view_option(*path),
            reason@,
        ),
{
    match (root_role, path) {
        (Some(root_role), Some(path)) => match read_location(root_role.as_str(), path.as_str()) {
            Ok(location) => Ok(Some(location)),
            Err(error) => Err(error),
        },
        (None, None) => Ok(None),
        _ => Err(CatalogError::Corrupt(reason.to_owned())),
    }
}

/// The digest that a blob holds.
pub fn digest_from_blob(blob: &[u8]) -> (result: Result<[u8; 32], CatalogError>)
    ensures
        (match result {
            Ok(digest) => Ok(digest@),
            Err(error) => Err(error@),
        }) == digest_of(blob@),
{
    if blob.len() != 32 {
        return Err(CatalogError::Corrupt("invalid BLAKE3 digest length".to_owned()));
    }
    let mut digest: [u8; 32] = [0u8; 32];
    let mut i: usize = 0;
    while i < 32
        invariant
            0 <= i <= 32,
            blob@.len() == 32,
            forall|j: int| 0 <= j < i ==> digest@[j] == blob@[j],
        decreases 32 - i,
    {
        digest[i] = blob[i];
        i += 1;
    }
    assert(digest@ =~= blob@);
    Ok(digest)
}

fn read_kind(name: &str) -> (result: Result<EventKind, CatalogError>)
    ensures
        plain_outcome(result) == kind_of(name@),
{
    match EventKind::from_db(name) {
        Ok(kind) => {
            proof {
                lemma_kind_named(kind);
            }
            Ok(kind)
        },
        Err(error) => Err(CatalogError::Domain(error)),
    }
}

fn read_state(name: &str) -> (result: Result<RecordState, CatalogError>)
    ensures
        plain_outcome(result) == state_of(name@),
{
    match RecordState::from_db(name) {
        Ok(state) => {
            proof {
                lemma_state_named(state);
            }
            Ok(state)
        },
        Err(error) => Err(CatalogError::Domain(error)),
    }
}

fn read_mode(name: &str) -> (result: Result<SubscriptionMode, CatalogError>)
    ensures
        plain_outcome(result) == mode_of(name@),
{
    match SubscriptionMode::from_db(name) {
        Ok(mode) => {
            proof {
                lemma_mode_named(mode);
            }
            Ok(mode)
        },
        Err(_) => Err(
            CatalogError::Corrupt(
                concat2("unknown subscription mode ", debug_text(name).as_str()),
            ),
        ),
    }
}

fn read_delivery_state(name: &str) -> (result: Result<DeliveryState, CatalogError>)
    ensures
        plain_outcome(result) == delivery_state_of(name@),
{
    match DeliveryState::from_db(name) {
        Ok(state) => {
            proof {
                lemma_delivery_state_named(state);
            }
            Ok(state)
        },
        Err(_) => Err(
            CatalogError::Corrupt(concat2("unknown delivery state ", debug_text(name).as_str())),
        ),
    }
}

fn read_policy(max_attempts: i64, initial: i64, maximum: i64) -> (result: Result<
    RetryPolicy,
    CatalogError,
>)
    ensures
        plain_outcome(result) == policy_of(max_attempts, initial, maximum),
{
    let max_attempts: u32 = small(max_attempts, "invalid max attempts")?;
    let initial_backoff_ms: u64 = whole(initial, "initial retry backoff")?;
    let max_backoff_ms: u64 = whole(maximum, "maximum retry backoff")?;
    match RetryPolicy::new(max_attempts, initial_backoff_ms, max_backoff_ms) {
        Ok(policy) => Ok(policy),
        Err(_) => Err(
            CatalogError::Corrupt(
                "retry policy requires positive attempts and max_backoff_ms >= initial_backoff_ms".to_owned(),
            ),
        ),
    }
}

fn write_optional_uuid(id: Option<Uuid>) -> (result: Option<Vec<u8>>)
    ensures
        optional_uuid_of(text::view_option(result)) == Ok::<Option<Uuid>, CatalogErrorView>(id),
{
    match id {
        Some(id) => Some(id.to_bytes()),
        None => None,
    }
}

fn flag(value: bool) -> (result: i64)
    ensures
        result == (if value {
            1int
        } else {
            0int
        }),
{
    if value {
        1
    } else {
        0
    }
}

/// One row of a table as its columns.
pub trait Columns: Sized {
    type Row: View;

    /// The row that the columns hold, or why they hold none.
    spec fn meaning(&self) -> Result<<Self::Row as View>::V, CatalogErrorView>;

    /// A row that can be stored.
    spec fn storable(row: <Self::Row as View>::V) -> bool;

    fn read(&self) -> (result: Result<Self::Row, CatalogError>)
        ensures
            read_outcome(result) == self.meaning(),
    ;

    fn write(row: &Self::Row) -> (result: Self)
        requires
            Self::storable(row@),
        ensures
            result.meaning() == Ok::<<Self::Row as View>::V, CatalogErrorView>(row@),
    ;
}

/// The identity that a record's columns hold.
pub open spec fn identity_of(producer_id: Uuid, c: RecordColumns) -> Result<
    IdentityView,
    CatalogErrorView,
> {
    let identity = IdentityView {
        producer_id: ProducerId { id: producer_id },
        agent_namespace: c.agent_namespace@,
        session_id: c.session_id@,
        record_kind: c.record_kind@,
        record_key: c.record_key@,
    };
    if identity.valid() {
        Ok(identity)
    } else {
        Err(
            CatalogErrorView::Domain(
                DomainErrorView::InvalidIdentifier { field: identity.first_invalid() },
            ),
        )
    }
}

fn read_identity(producer_id: Uuid, c: &RecordColumns) -> (result: Result<
    RecordIdentity,
    CatalogError,
>)
    ensures
        read_outcome(result) == identity_of(producer_id, *c),
{
    match RecordIdentity::new(
        ProducerId::from_uuid(producer_id),
        c.agent_namespace.as_str(),
        c.session_id.as_str(),
        c.record_kind.as_str(),
        c.record_key.as_str(),
    ) {
        Ok(identity) => Ok(identity),
        Err(error) => Err(CatalogError::Domain(error)),
    }
}

/// A record as its columns.
#[derive(Debug, Eq, PartialEq)]
pub struct RecordColumns {
    pub id: Vec<u8>,
    pub producer_id: Vec<u8>,
    pub agent_namespace: String,
    pub session_id: String,
    pub record_kind: String,
    pub record_key: String,
    pub root_role: String,
    pub source_relative_path: String,
    pub record_version: i64,
    pub state: String,
    pub current_revision_id: Option<Vec<u8>>,
    pub created_at_ms: i64,
    pub updated_at_ms: i64,
}

impl Columns for RecordColumns {
    type Row = RecordRow;

    open spec fn meaning(&self) -> Result<RecordView, CatalogErrorView> {
        let id = uuid_of(self.id@);
        let producer_id = uuid_of(self.producer_id@);
        let identity = identity_of(producer_id->Ok_0, *self);
        let record_version = whole_of(self.record_version, "record version"@);
        let state = state_of(self.state@);
        let location = location_of(self.root_role@, self.source_relative_path@);
        let revision_id = optional_uuid_of(text::view_option(self.current_revision_id));
        if id is Err {
            Err(id->Err_0)
        } else if producer_id is Err {
            Err(producer_id->Err_0)
        } else if identity is Err {
            Err(identity->Err_0)
        } else if record_version is Err {
            Err(record_version->Err_0)
        } else if state is Err {
            Err(state->Err_0)
        } else if location is Err {
            Err(location->Err_0)
        } else if revision_id is Err {
            Err(revision_id->Err_0)
        } else {
            Ok(
                RecordView {
                    id: RecordId { id: id->Ok_0 },
                    identity: identity->Ok_0,
                    location: location->Ok_0,
                    record_version: record_version->Ok_0,
                    state: state->Ok_0,
                    current_revision_id: revision_ids(revision_id->Ok_0),
                    created_at_ms: self.created_at_ms,
                    updated_at_ms: self.updated_at_ms,
                },
            )
        }
    }

    open spec fn storable(row: RecordView) -> bool {
        ledger::record_ok(row)
    }

    fn read(&self) -> (result: Result<RecordRow, CatalogError>) {
        let id = uuid_from_blob(self.id.as_slice())?;
        let producer_id = uuid_from_blob(self.producer_id.as_slice())?;
        let identity = read_identity(producer_id, self)?;
        let record_version: u64 = whole(self.record_version, "record version")?;
        let state = read_state(self.state.as_str())?;
        let location = read_location(self.root_role.as_str(), self.source_relative_path.as_str())?;
        let revision_id = optional_uuid_from_blob(&self.current_revision_id)?;
        let row = RecordRow {
            id: RecordId::from_uuid(id),
            identity,
            location,
            record_version,
            state,
            current_revision_id: to_revision_id(revision_id),
            created_at_ms: self.created_at_ms,
            updated_at_ms: self.updated_at_ms,
        };
        assert(Ok::<RecordView, CatalogErrorView>(row@) =~= self.meaning());
        Ok(row)
    }

    fn write(row: &RecordRow) -> (result: RecordColumns) {
        proof {
            lemma_state_named(row.state);
        }
        let columns = RecordColumns {
            id: row.id.as_uuid().to_bytes(),
            producer_id: row.identity.producer_id().as_uuid().to_bytes(),
            agent_namespace: row.identity.agent_namespace().to_owned(),
            session_id: row.identity.session_id().to_owned(),
            record_kind: row.identity.record_kind().to_owned(),
            record_key: row.identity.record_key().to_owned(),
            root_role: row.location.root_role().to_owned(),
            source_relative_path: row.location.source_relative_path().to_owned(),
            record_version: row.record_version as i64,
            state: row.state.as_db().to_owned(),
            current_revision_id: write_optional_uuid(of_revision_id(row.current_revision_id)),
            created_at_ms: row.created_at_ms,
            updated_at_ms: row.updated_at_ms,
        };
        assert(columns.meaning() =~= Ok::<RecordView, CatalogErrorView>(row@));
        columns
    }
}

/// An optional identifier as that of a revision.
pub open spec fn revision_ids(id: Option<Uuid>) -> Option<RevisionId> {
    match id {
        Some(id) => Some(RevisionId { id }),
        None => None,
    }
}

fn to_revision_id(id: Option<Uuid>) -> (result: Option<RevisionId>)
    ensures
        result == revision_ids(id),
{
    match id {
        Some(id) => Some(RevisionId::from_uuid(id)),
        None => None,
    }
}

fn of_revision_id(id: Option<RevisionId>) -> (result: Option<Uuid>)
    ensures
        revision_ids(result) == id,
{
    match id {
        Some(id) => Some(id.as_uuid()),
        None => None,
    }
}

/// The bytes of a slice.
fn copy_bytes(bytes: &[u8]) -> (result: Vec<u8>)
    ensures
        result@ == bytes@,
{
    let mut copied: Vec<u8> = Vec::new();
    let mut i: usize = 0;
    while i < bytes.len()
        invariant
            0 <= i <= bytes@.len(),
            copied@ == bytes@.take(i as int),
        decreases bytes@.len() - i,
    {
        assert(bytes@.take(i + 1) =~= bytes@.take(i as int).push(bytes@[i as int]));
        copied.push(bytes[i]);
        i += 1;
    }
    assert(bytes@.take(bytes@.len() as int) =~= bytes@);
    copied
}

/// A revision as its columns.
#[derive(Debug, Eq, PartialEq)]
pub struct RevisionColumns {
    pub id: Vec<u8>,
    pub record_id: Vec<u8>,
    pub byte_length: i64,
    pub digest: Vec<u8>,
    pub first_observed_at_ms: i64,
    pub last_observed_at_ms: i64,
}

impl Columns for RevisionColumns {
    type Row = RevisionRow;

    open spec fn meaning(&self) -> Result<RevisionRowView, CatalogErrorView> {
        let id = uuid_of(self.id@);
        let record_id = uuid_of(self.record_id@);
        let byte_length = whole_of(self.byte_length, "revision byte length"@);
        let digest = digest_of(self.digest@);
        if id is Err {
            Err(id->Err_0)
        } else if record_id is Err {
            Err(record_id->Err_0)
        } else if byte_length is Err {
            Err(byte_length->Err_0)
        } else if digest is Err {
            Err(digest->Err_0)
        } else {
            Ok(
                RevisionRowView {
                    id: RevisionId { id: id->Ok_0 },
                    record_id: RecordId { id: record_id->Ok_0 },
                    revision: RevisionView { byte_length: byte_length->Ok_0, digest: digest->Ok_0 },
                    first_observed_at_ms: self.first_observed_at_ms,
                    last_observed_at_ms: self.last_observed_at_ms,
                },
            )
        }
    }

    open spec fn storable(row: RevisionRowView) -> bool {
        ledger::revision_ok(row)
    }

    fn read(&self) -> (result: Result<RevisionRow, CatalogError>) {
        let id = uuid_from_blob(self.id.as_slice())?;
        let record_id = uuid_from_blob(self.record_id.as_slice())?;
        let byte_length: u64 = whole(self.byte_length, "revision byte length")?;
        let digest = digest_from_blob(self.digest.as_slice())?;
        let row = RevisionRow {
            id: RevisionId::from_uuid(id),
            record_id: RecordId::from_uuid(record_id),
            revision: CanonicalRevision::from_parts(byte_length, digest),
            first_observed_at_ms: self.first_observed_at_ms,
            last_observed_at_ms: self.last_observed_at_ms,
        };
        assert(Ok::<RevisionRowView, CatalogErrorView>(row@) =~= self.meaning());
        Ok(row)
    }

    fn write(row: &RevisionRow) -> (result: RevisionColumns) {
        let digest = row.revision.digest();
        let columns = RevisionColumns {
            id: row.id.as_uuid().to_bytes(),
            record_id: row.record_id.as_uuid().to_bytes(),
            byte_length: row.revision.byte_length() as i64,
            digest: copy_bytes(vstd::array::array_as_slice(&digest)),
            first_observed_at_ms: row.first_observed_at_ms,
            last_observed_at_ms: row.last_observed_at_ms,
        };
        assert(columns.meaning() =~= Ok::<RevisionRowView, CatalogErrorView>(row@));
        columns
    }
}

/// An event as its columns.
#[derive(Debug, Eq, PartialEq)]
pub struct EventColumns {
    pub id: Vec<u8>,
    pub sequence: i64,
    pub record_id: Vec<u8>,
    pub record_version: i64,
    pub kind: String,
    pub revision_id: Option<Vec<u8>>,
    pub root_role: Option<String>,
    pub source_relative_path: Option<String>,
    pub committed_at_ms: i64,
}

impl Columns for EventColumns {
    type Row = ArchiveEvent;

    open spec fn meaning(&self) -> Result<EventView, CatalogErrorView> {
        let location = optional_location_of(
            text::view_option(self.root_role),
            text::view_option(self.source_relative_path),
            "incomplete event location"@,
        );
        let id = uuid_of(self.id@);
        let sequence = whole_of(self.sequence, "event sequence"@);
        let record_id = uuid_of(self.record_id@);
        let record_version = whole_of(self.record_version, "record version"@);
        let kind = kind_of(self.kind@);
        let revision_id = optional_uuid_of(text::view_option(self.revision_id));
        if location is Err {
            Err(location->Err_0)
        } else if id is Err {
            Err(id->Err_0)
        } else if sequence is Err {
            Err(sequence->Err_0)
        } else if record_id is Err {
            Err(record_id->Err_0)
        } else if record_version is Err {
            Err(record_version->Err_0)
        } else if kind is Err {
            Err(kind->Err_0)
        } else if revision_id is Err {
            Err(revision_id->Err_0)
        } else {
            Ok(
                EventView {
                    id: EventId { id: id->Ok_0 },
                    sequence: sequence->Ok_0,
                    record_id: RecordId { id: record_id->Ok_0 },
                    record_version: record_version->Ok_0,
                    kind: kind->Ok_0,
                    revision_id: revision_ids(revision_id->Ok_0),
                    location: location->Ok_0,
                    committed_at_ms: self.committed_at_ms,
                },
            )
        }
    }

    open spec fn storable(row: EventView) -> bool {
        ledger::event_ok(row)
    }

    fn read(&self) -> (result: Result<ArchiveEvent, CatalogError>) {
        let location = read_optional_location(
            &self.root_role,
            &self.source_relative_path,
            "incomplete event location",
        )?;
        let id = uuid_from_blob(self.id.as_slice())?;
        let sequence: u64 = whole(self.sequence, "event sequence")?;
        let record_id = uuid_from_blob(self.record_id.as_slice())?;
        let record_version: u64 = whole(self.record_version, "record version")?;
        let kind = read_kind(self.kind.as_str())?;
        let revision_id = optional_uuid_from_blob(&self.revision_id)?;
        let row = ArchiveEvent {
            id: EventId::from_uuid(id),
            sequence,
            record_id: RecordId::from_uuid(record_id),
            record_version,
            kind,
            revision_id: to_revision_id(revision_id),
            location,
            committed_at_ms: self.committed_at_ms,
        };
        assert(Ok::<EventView, CatalogErrorView>(row@) =~= self.meaning());
        Ok(row)
    }

    fn write(row: &ArchiveEvent) -> (result: EventColumns) {
        proof {
            lemma_kind_named(row.kind);
        }
        let (
            root_role,
            source_relative_path,
        ): (Option<String>, Option<String>) = match &row.location {
            Some(location) => (
                Some(location.root_role().to_owned()),
                Some(location.source_relative_path().to_owned()),
            ),
            None => (None, None),
        };
        let columns = EventColumns {
            id: row.id.as_uuid().to_bytes(),
            sequence: row.sequence as i64,
            record_id: row.record_id.as_uuid().to_bytes(),
            record_version: row.record_version as i64,
            kind: row.kind.as_db().to_owned(),
            revision_id: write_optional_uuid(of_revision_id(row.revision_id)),
            root_role,
            source_relative_path,
            committed_at_ms: row.committed_at_ms,
        };
        assert(columns.meaning() =~= Ok::<EventView, CatalogErrorView>(row@));
        columns
    }
}

/// A source as its columns.
#[derive(Debug, Eq, PartialEq)]
pub struct SourceColumns {
    pub source_id: String,
    pub producer_id: Vec<u8>,
    pub identity_schema_name: String,
    pub identity_schema_version: i64,
    pub next_generation: i64,
    pub last_complete_generation: i64,
}

impl Columns for SourceColumns {
    type Row = SourceRow;

    open spec fn meaning(&self) -> Result<SourceRowView, CatalogErrorView> {
        let producer_id = uuid_of(self.producer_id@);
        let version = small_of(self.identity_schema_version, "invalid identity schema version"@);
        let next_generation = whole_of(self.next_generation, "next source generation"@);
        let last_complete_generation = whole_of(
            self.last_complete_generation,
            "last complete source generation"@,
        );
        if producer_id is Err {
            Err(producer_id->Err_0)
        } else if version is Err {
            Err(version->Err_0)
        } else if next_generation is Err {
            Err(next_generation->Err_0)
        } else if last_complete_generation is Err {
            Err(last_complete_generation->Err_0)
        } else {
            Ok(
                SourceRowView {
                    source_id: self.source_id@,
                    producer_id: ProducerId { id: producer_id->Ok_0 },
                    identity_schema_name: self.identity_schema_name@,
                    identity_schema_version: version->Ok_0,
                    next_generation: next_generation->Ok_0,
                    last_complete_generation: last_complete_generation->Ok_0,
                },
            )
        }
    }

    open spec fn storable(row: SourceRowView) -> bool {
        ledger::source_ok(row)
    }

    fn read(&self) -> (result: Result<SourceRow, CatalogError>) {
        let producer_id = uuid_from_blob(self.producer_id.as_slice())?;
        let version: u32 = small(self.identity_schema_version, "invalid identity schema version")?;
        let next_generation: u64 = whole(self.next_generation, "next source generation")?;
        let last_complete_generation: u64 = whole(
            self.last_complete_generation,
            "last complete source generation",
        )?;
        let row = SourceRow {
            source_id: self.source_id.clone(),
            producer_id: ProducerId::from_uuid(producer_id),
            identity_schema_name: self.identity_schema_name.clone(),
            identity_schema_version: version,
            next_generation,
            last_complete_generation,
        };
        assert(Ok::<SourceRowView, CatalogErrorView>(row@) =~= self.meaning());
        Ok(row)
    }

    fn write(row: &SourceRow) -> (result: SourceColumns) {
        let columns = SourceColumns {
            source_id: row.source_id.clone(),
            producer_id: row.producer_id.as_uuid().to_bytes(),
            identity_schema_name: row.identity_schema_name.clone(),
            identity_schema_version: row.identity_schema_version as i64,
            next_generation: row.next_generation as i64,
            last_complete_generation: row.last_complete_generation as i64,
        };
        assert(columns.meaning() =~= Ok::<SourceRowView, CatalogErrorView>(row@));
        columns
    }
}

/// A looked-at file as its columns.
#[derive(Debug, Eq, PartialEq)]
pub struct ObservationColumns {
    pub source_id: String,
    pub root_role: String,
    pub source_relative_path: String,
    pub byte_length: i64,
    pub modified_seconds: i64,
    pub modified_nanoseconds: i64,
    pub device: Option<i64>,
    pub inode: Option<i64>,
    pub unchanged_observations: i64,
    pub hash_admitted: i64,
    pub last_seen_generation: i64,
}

impl Columns for ObservationColumns {
    type Row = ObservationRow;

    open spec fn meaning(&self) -> Result<ObservationView, CatalogErrorView> {
        let location = location_of(self.root_role@, self.source_relative_path@);
        let byte_length = whole_of(self.byte_length, "fingerprint byte length"@);
        let modified_nanoseconds = small_of(
            self.modified_nanoseconds,
            "invalid fingerprint nanoseconds"@,
        );
        let device = optional_whole_of(self.device, "fingerprint device"@);
        let inode = optional_whole_of(self.inode, "fingerprint inode"@);
        let unchanged_observations = whole_of(
            self.unchanged_observations,
            "unchanged observations"@,
        );
        let last_seen_generation = whole_of(self.last_seen_generation, "source scan generation"@);
        if location is Err {
            Err(location->Err_0)
        } else if byte_length is Err {
            Err(byte_length->Err_0)
        } else if modified_nanoseconds is Err {
            Err(modified_nanoseconds->Err_0)
        } else if device is Err {
            Err(device->Err_0)
        } else if inode is Err {
            Err(inode->Err_0)
        } else if unchanged_observations is Err {
            Err(unchanged_observations->Err_0)
        } else if last_seen_generation is Err {
            Err(last_seen_generation->Err_0)
        } else {
            Ok(
                ObservationView {
                    source_id: self.source_id@,
                    location: location->Ok_0,
                    fingerprint: SourceFingerprint {
                        byte_length: byte_length->Ok_0,
                        modified_seconds: self.modified_seconds,
                        modified_nanoseconds: modified_nanoseconds->Ok_0,
                        device: device->Ok_0,
                        inode: inode->Ok_0,
                    },
                    unchanged_observations: unchanged_observations->Ok_0,
                    hash_admitted: self.hash_admitted != 0,
                    last_seen_generation: last_seen_generation->Ok_0,
                },
            )
        }
    }

    open spec fn storable(row: ObservationView) -> bool {
        ledger::observation_ok(row)
    }

    fn read(&self) -> (result: Result<ObservationRow, CatalogError>) {
        let location = read_location(self.root_role.as_str(), self.source_relative_path.as_str())?;
        let byte_length: u64 = whole(self.byte_length, "fingerprint byte length")?;
        let modified_nanoseconds: u32 = small(
            self.modified_nanoseconds,
            "invalid fingerprint nanoseconds",
        )?;
        let device: Option<u64> = optional_whole(self.device, "fingerprint device")?;
        let inode: Option<u64> = optional_whole(self.inode, "fingerprint inode")?;
        let unchanged_observations: u64 = whole(
            self.unchanged_observations,
            "unchanged observations",
        )?;
        let last_seen_generation: u64 = whole(self.last_seen_generation, "source scan generation")?;
        let row = ObservationRow {
            source_id: self.source_id.clone(),
            location,
            fingerprint: SourceFingerprint {
                byte_length,
                modified_seconds: self.modified_seconds,
                modified_nanoseconds,
                device,
                inode,
            },
            unchanged_observations,
            hash_admitted: self.hash_admitted != 0,
            last_seen_generation,
        };
        assert(Ok::<ObservationView, CatalogErrorView>(row@) =~= self.meaning());
        Ok(row)
    }

    fn write(row: &ObservationRow) -> (result: ObservationColumns) {
        let columns = ObservationColumns {
            source_id: row.source_id.clone(),
            root_role: row.location.root_role().to_owned(),
            source_relative_path: row.location.source_relative_path().to_owned(),
            byte_length: row.fingerprint.byte_length as i64,
            modified_seconds: row.fingerprint.modified_seconds,
            modified_nanoseconds: row.fingerprint.modified_nanoseconds as i64,
            device: write_optional(row.fingerprint.device),
            inode: write_optional(row.fingerprint.inode),
            unchanged_observations: row.unchanged_observations as i64,
            hash_admitted: flag(row.hash_admitted),
            last_seen_generation: row.last_seen_generation as i64,
        };
        assert(columns.meaning() =~= Ok::<ObservationView, CatalogErrorView>(row@));
        columns
    }
}

fn write_optional(value: Option<u64>) -> (result: Option<i64>)
    requires
        value matches Some(number) ==> number <= MAX_STORED,
    ensures
        match (value, result) {
            (Some(number), Some(stored)) => stored == number,
            (None, None) => true,
            _ => false,
        },
{
    match value {
        Some(number) => Some(number as i64),
        None => None,
    }
}

/// A record that a source has seen, as its columns.
#[derive(Debug, Eq, PartialEq)]
pub struct SourceRecordColumns {
    pub source_id: String,
    pub record_id: Vec<u8>,
    pub last_seen_generation: i64,
}

impl Columns for SourceRecordColumns {
    type Row = SourceRecordRow;

    open spec fn meaning(&self) -> Result<SourceRecordView, CatalogErrorView> {
        let record_id = uuid_of(self.record_id@);
        let last_seen_generation = whole_of(self.last_seen_generation, "source scan generation"@);
        if record_id is Err {
            Err(record_id->Err_0)
        } else if last_seen_generation is Err {
            Err(last_seen_generation->Err_0)
        } else {
            Ok(
                SourceRecordView {
                    source_id: self.source_id@,
                    record_id: RecordId { id: record_id->Ok_0 },
                    last_seen_generation: last_seen_generation->Ok_0,
                },
            )
        }
    }

    open spec fn storable(row: SourceRecordView) -> bool {
        ledger::source_record_ok(row)
    }

    fn read(&self) -> (result: Result<SourceRecordRow, CatalogError>) {
        let record_id = uuid_from_blob(self.record_id.as_slice())?;
        let last_seen_generation: u64 = whole(self.last_seen_generation, "source scan generation")?;
        let row = SourceRecordRow {
            source_id: self.source_id.clone(),
            record_id: RecordId::from_uuid(record_id),
            last_seen_generation,
        };
        assert(Ok::<SourceRecordView, CatalogErrorView>(row@) =~= self.meaning());
        Ok(row)
    }

    fn write(row: &SourceRecordRow) -> (result: SourceRecordColumns) {
        let columns = SourceRecordColumns {
            source_id: row.source_id.clone(),
            record_id: row.record_id.as_uuid().to_bytes(),
            last_seen_generation: row.last_seen_generation as i64,
        };
        assert(columns.meaning() =~= Ok::<SourceRecordView, CatalogErrorView>(row@));
        columns
    }
}

/// A missed record as its columns.
#[derive(Debug, Eq, PartialEq)]
pub struct CandidateColumns {
    pub record_id: Vec<u8>,
    pub source_id: String,
    pub first_missing_at_ms: i64,
    pub complete_guarded_scans: i64,
}

impl Columns for CandidateColumns {
    type Row = CandidateRow;

    open spec fn meaning(&self) -> Result<CandidateView, CatalogErrorView> {
        let record_id = uuid_of(self.record_id@);
        let complete_guarded_scans = whole_of(
            self.complete_guarded_scans,
            "complete guarded scans"@,
        );
        if record_id is Err {
            Err(record_id->Err_0)
        } else if complete_guarded_scans is Err {
            Err(complete_guarded_scans->Err_0)
        } else {
            Ok(
                CandidateView {
                    record_id: RecordId { id: record_id->Ok_0 },
                    source_id: self.source_id@,
                    first_missing_at_ms: self.first_missing_at_ms,
                    complete_guarded_scans: complete_guarded_scans->Ok_0,
                },
            )
        }
    }

    open spec fn storable(row: CandidateView) -> bool {
        ledger::candidate_ok(row)
    }

    fn read(&self) -> (result: Result<CandidateRow, CatalogError>) {
        let record_id = uuid_from_blob(self.record_id.as_slice())?;
        let complete_guarded_scans: u64 = whole(
            self.complete_guarded_scans,
            "complete guarded scans",
        )?;
        let row = CandidateRow {
            record_id: RecordId::from_uuid(record_id),
            source_id: self.source_id.clone(),
            first_missing_at_ms: self.first_missing_at_ms,
            complete_guarded_scans,
        };
        assert(Ok::<CandidateView, CatalogErrorView>(row@) =~= self.meaning());
        Ok(row)
    }

    fn write(row: &CandidateRow) -> (result: CandidateColumns) {
        let columns = CandidateColumns {
            record_id: row.record_id.as_uuid().to_bytes(),
            source_id: row.source_id.clone(),
            first_missing_at_ms: row.first_missing_at_ms,
            complete_guarded_scans: row.complete_guarded_scans as i64,
        };
        assert(columns.meaning() =~= Ok::<CandidateView, CatalogErrorView>(row@));
        columns
    }
}

/// A source's scrub progress as its columns.
#[derive(Debug, Eq, PartialEq)]
pub struct ScrubColumns {
    pub source_id: String,
    pub cursor_root_role: Option<String>,
    pub cursor_source_relative_path: Option<String>,
    pub completed_cycles: i64,
    pub last_completed_at_ms: Option<i64>,
}

impl Columns for ScrubColumns {
    type Row = ScrubRow;

    open spec fn meaning(&self) -> Result<ScrubRowView, CatalogErrorView> {
        let cursor = optional_location_of(
            text::view_option(self.cursor_root_role),
            text::view_option(self.cursor_source_relative_path),
            "incomplete source scrub cursor"@,
        );
        let completed_cycles = whole_of(self.completed_cycles, "source scrub cycles"@);
        if cursor is Err {
            Err(cursor->Err_0)
        } else if completed_cycles is Err {
            Err(completed_cycles->Err_0)
        } else {
            Ok(
                ScrubRowView {
                    source_id: self.source_id@,
                    cursor: cursor->Ok_0,
                    completed_cycles: completed_cycles->Ok_0,
                    last_completed_at_ms: self.last_completed_at_ms,
                },
            )
        }
    }

    open spec fn storable(row: ScrubRowView) -> bool {
        ledger::scrub_ok(row)
    }

    fn read(&self) -> (result: Result<ScrubRow, CatalogError>) {
        let cursor = read_optional_location(
            &self.cursor_root_role,
            &self.cursor_source_relative_path,
            "incomplete source scrub cursor",
        )?;
        let completed_cycles: u64 = whole(self.completed_cycles, "source scrub cycles")?;
        let row = ScrubRow {
            source_id: self.source_id.clone(),
            cursor,
            completed_cycles,
            last_completed_at_ms: self.last_completed_at_ms,
        };
        assert(Ok::<ScrubRowView, CatalogErrorView>(row@) =~= self.meaning());
        Ok(row)
    }

    fn write(row: &ScrubRow) -> (result: ScrubColumns) {
        let (
            root_role,
            source_relative_path,
        ): (Option<String>, Option<String>) = match &row.cursor {
            Some(location) => (
                Some(location.root_role().to_owned()),
                Some(location.source_relative_path().to_owned()),
            ),
            None => (None, None),
        };
        let columns = ScrubColumns {
            source_id: row.source_id.clone(),
            cursor_root_role: root_role,
            cursor_source_relative_path: source_relative_path,
            completed_cycles: row.completed_cycles as i64,
            last_completed_at_ms: row.last_completed_at_ms,
        };
        assert(columns.meaning() =~= Ok::<ScrubRowView, CatalogErrorView>(row@));
        columns
    }
}

/// A subscription as its columns.
#[derive(Debug, Eq, PartialEq)]
pub struct SubscriptionColumns {
    pub id: Vec<u8>,
    pub consumer_id: String,
    pub mode: String,
    pub max_active_leases: i64,
    pub accepts_moves: i64,
    pub accepts_tombstones: i64,
    pub created_at_ms: i64,
    pub enabled: i64,
    pub max_attempts: i64,
    pub initial_backoff_ms: i64,
    pub max_backoff_ms: i64,
}

impl Columns for SubscriptionColumns {
    type Row = SubscriptionRow;

    open spec fn meaning(&self) -> Result<SubscriptionView, CatalogErrorView> {
        let id = uuid_of(self.id@);
        let mode = mode_of(self.mode@);
        let max_active_leases = small_of(self.max_active_leases, "invalid max_active_leases"@);
        let enabled = enabled_of(self.enabled);
        let retry_policy = policy_of(
            self.max_attempts,
            self.initial_backoff_ms,
            self.max_backoff_ms,
        );
        if id is Err {
            Err(id->Err_0)
        } else if mode is Err {
            Err(mode->Err_0)
        } else if max_active_leases is Err {
            Err(max_active_leases->Err_0)
        } else if enabled is Err {
            Err(enabled->Err_0)
        } else if retry_policy is Err {
            Err(retry_policy->Err_0)
        } else {
            Ok(
                SubscriptionView {
                    id: SubscriptionId { id: id->Ok_0 },
                    consumer_id: self.consumer_id@,
                    mode: mode->Ok_0,
                    max_active_leases: max_active_leases->Ok_0,
                    accepts_moves: self.accepts_moves != 0,
                    accepts_tombstones: self.accepts_tombstones != 0,
                    created_at_ms: self.created_at_ms,
                    enabled: enabled->Ok_0,
                    retry_policy: retry_policy->Ok_0,
                },
            )
        }
    }

    open spec fn storable(row: SubscriptionView) -> bool {
        ledger::subscription_ok(row)
    }

    fn read(&self) -> (result: Result<SubscriptionRow, CatalogError>) {
        let id = uuid_from_blob(self.id.as_slice())?;
        let mode = read_mode(self.mode.as_str())?;
        let max_active_leases: u32 = small(self.max_active_leases, "invalid max_active_leases")?;
        let enabled: bool = read_enabled(self.enabled)?;
        let retry_policy = read_policy(
            self.max_attempts,
            self.initial_backoff_ms,
            self.max_backoff_ms,
        )?;
        let row = SubscriptionRow {
            id: SubscriptionId::from_uuid(id),
            consumer_id: self.consumer_id.clone(),
            mode,
            max_active_leases,
            accepts_moves: self.accepts_moves != 0,
            accepts_tombstones: self.accepts_tombstones != 0,
            created_at_ms: self.created_at_ms,
            enabled,
            retry_policy,
        };
        assert(Ok::<SubscriptionView, CatalogErrorView>(row@) =~= self.meaning());
        Ok(row)
    }

    fn write(row: &SubscriptionRow) -> (result: SubscriptionColumns) {
        proof {
            lemma_mode_named(row.mode);
        }
        let columns = SubscriptionColumns {
            id: row.id.as_uuid().to_bytes(),
            consumer_id: row.consumer_id.clone(),
            mode: row.mode.as_db().to_owned(),
            max_active_leases: row.max_active_leases as i64,
            accepts_moves: flag(row.accepts_moves),
            accepts_tombstones: flag(row.accepts_tombstones),
            created_at_ms: row.created_at_ms,
            enabled: flag(row.enabled),
            max_attempts: row.retry_policy.max_attempts() as i64,
            initial_backoff_ms: row.retry_policy.initial_backoff_ms() as i64,
            max_backoff_ms: row.retry_policy.max_backoff_ms() as i64,
        };
        assert(columns.meaning() =~= Ok::<SubscriptionView, CatalogErrorView>(row@));
        columns
    }
}

/// Whether an integer says that a subscription is enabled.
pub open spec fn enabled_of(value: i64) -> Result<bool, CatalogErrorView> {
    if value == 0 {
        Ok(false)
    } else if value == 1 {
        Ok(true)
    } else {
        Err(CatalogErrorView::Corrupt("invalid enabled value"@))
    }
}

fn read_enabled(value: i64) -> (result: Result<bool, CatalogError>)
    ensures
        plain_outcome(result) == enabled_of(value),
{
    if value == 0 {
        Ok(false)
    } else if value == 1 {
        Ok(true)
    } else {
        Err(CatalogError::Corrupt("invalid enabled value".to_owned()))
    }
}

/// An optional identifier as that of a lease.
pub open spec fn tokens(id: Option<Uuid>) -> Option<LeaseToken> {
    match id {
        Some(id) => Some(LeaseToken { id }),
        None => None,
    }
}

fn to_token(id: Option<Uuid>) -> (result: Option<LeaseToken>)
    ensures
        result == tokens(id),
{
    match id {
        Some(id) => Some(LeaseToken::from_uuid(id)),
        None => None,
    }
}

fn of_token(token: Option<LeaseToken>) -> (result: Option<Uuid>)
    ensures
        tokens(result) == token,
{
    match token {
        Some(token) => Some(token.as_uuid()),
        None => None,
    }
}

fn copy_reason(reason: &Option<String>) -> (result: Option<String>)
    ensures
        text::view_option(result) == text::view_option(*reason),
{
    match reason {
        Some(reason) => Some(reason.clone()),
        None => None,
    }
}

/// A delivery as its columns.
#[derive(Debug, Eq, PartialEq)]
pub struct DeliveryColumns {
    pub id: i64,
    pub subscription_id: Vec<u8>,
    pub event_id: Vec<u8>,
    pub event_sequence: Option<i64>,
    pub record_id: Vec<u8>,
    pub record_version: i64,
    pub kind: String,
    pub revision_id: Option<Vec<u8>>,
    pub root_role: Option<String>,
    pub source_relative_path: Option<String>,
    pub is_snapshot: i64,
    pub state: String,
    pub attempts: i64,
    pub lease_token: Option<Vec<u8>>,
    pub lease_expires_at_ms: Option<i64>,
    pub not_before_ms: i64,
    pub settled_at_ms: Option<i64>,
    pub settlement_reason: Option<String>,
    pub created_at_ms: i64,
}

impl Columns for DeliveryColumns {
    type Row = DeliveryRow;

    open spec fn meaning(&self) -> Result<DeliveryView, CatalogErrorView> {
        let id = whole_of(self.id, "delivery ID"@);
        let subscription_id = uuid_of(self.subscription_id@);
        let event_id = uuid_of(self.event_id@);
        let event_sequence = optional_whole_of(self.event_sequence, "event sequence"@);
        let record_id = uuid_of(self.record_id@);
        let record_version = whole_of(self.record_version, "record version"@);
        let kind = kind_of(self.kind@);
        let revision_id = optional_uuid_of(text::view_option(self.revision_id));
        let location = optional_location_of(
            text::view_option(self.root_role),
            text::view_option(self.source_relative_path),
            "incomplete delivery location"@,
        );
        let attempts = small_of(self.attempts, "invalid delivery attempts"@);
        let state = delivery_state_of(self.state@);
        let token = optional_uuid_of(text::view_option(self.lease_token));
        if id is Err {
            Err(id->Err_0)
        } else if subscription_id is Err {
            Err(subscription_id->Err_0)
        } else if event_id is Err {
            Err(event_id->Err_0)
        } else if event_sequence is Err {
            Err(event_sequence->Err_0)
        } else if record_id is Err {
            Err(record_id->Err_0)
        } else if record_version is Err {
            Err(record_version->Err_0)
        } else if kind is Err {
            Err(kind->Err_0)
        } else if revision_id is Err {
            Err(revision_id->Err_0)
        } else if location is Err {
            Err(location->Err_0)
        } else if attempts is Err {
            Err(attempts->Err_0)
        } else if state is Err {
            Err(state->Err_0)
        } else if token is Err {
            Err(token->Err_0)
        } else {
            Ok(
                DeliveryView {
                    id: id->Ok_0,
                    subscription_id: SubscriptionId { id: subscription_id->Ok_0 },
                    event_id: EventId { id: event_id->Ok_0 },
                    event_sequence: event_sequence->Ok_0,
                    record_id: RecordId { id: record_id->Ok_0 },
                    record_version: record_version->Ok_0,
                    kind: kind->Ok_0,
                    revision_id: revision_ids(revision_id->Ok_0),
                    location: location->Ok_0,
                    is_snapshot: self.is_snapshot != 0,
                    state: state->Ok_0,
                    attempts: attempts->Ok_0,
                    lease_token: tokens(token->Ok_0),
                    lease_expires_at_ms: self.lease_expires_at_ms,
                    not_before_ms: self.not_before_ms,
                    settled_at_ms: self.settled_at_ms,
                    settlement_reason: text::view_option(self.settlement_reason),
                    created_at_ms: self.created_at_ms,
                },
            )
        }
    }

    open spec fn storable(row: DeliveryView) -> bool {
        ledger::delivery_ok(row)
    }

    fn read(&self) -> (result: Result<DeliveryRow, CatalogError>) {
        let id: u64 = whole(self.id, "delivery ID")?;
        let subscription_id = uuid_from_blob(self.subscription_id.as_slice())?;
        let event_id = uuid_from_blob(self.event_id.as_slice())?;
        let event_sequence: Option<u64> = optional_whole(self.event_sequence, "event sequence")?;
        let record_id = uuid_from_blob(self.record_id.as_slice())?;
        let record_version: u64 = whole(self.record_version, "record version")?;
        let kind = read_kind(self.kind.as_str())?;
        let revision_id = optional_uuid_from_blob(&self.revision_id)?;
        let location = read_optional_location(
            &self.root_role,
            &self.source_relative_path,
            "incomplete delivery location",
        )?;
        let attempts: u32 = small(self.attempts, "invalid delivery attempts")?;
        let state = read_delivery_state(self.state.as_str())?;
        let token = optional_uuid_from_blob(&self.lease_token)?;
        let row = DeliveryRow {
            id,
            subscription_id: SubscriptionId::from_uuid(subscription_id),
            event_id: EventId::from_uuid(event_id),
            event_sequence,
            record_id: RecordId::from_uuid(record_id),
            record_version,
            kind,
            revision_id: to_revision_id(revision_id),
            location,
            is_snapshot: self.is_snapshot != 0,
            state,
            attempts,
            lease_token: to_token(token),
            lease_expires_at_ms: self.lease_expires_at_ms,
            not_before_ms: self.not_before_ms,
            settled_at_ms: self.settled_at_ms,
            settlement_reason: copy_reason(&self.settlement_reason),
            created_at_ms: self.created_at_ms,
        };
        assert(Ok::<DeliveryView, CatalogErrorView>(row@) =~= self.meaning());
        Ok(row)
    }

    fn write(row: &DeliveryRow) -> (result: DeliveryColumns) {
        proof {
            lemma_kind_named(row.kind);
            lemma_delivery_state_named(row.state);
        }
        let (
            root_role,
            source_relative_path,
        ): (Option<String>, Option<String>) = match &row.location {
            Some(location) => (
                Some(location.root_role().to_owned()),
                Some(location.source_relative_path().to_owned()),
            ),
            None => (None, None),
        };
        let columns = DeliveryColumns {
            id: row.id as i64,
            subscription_id: row.subscription_id.as_uuid().to_bytes(),
            event_id: row.event_id.as_uuid().to_bytes(),
            event_sequence: write_optional(row.event_sequence),
            record_id: row.record_id.as_uuid().to_bytes(),
            record_version: row.record_version as i64,
            kind: row.kind.as_db().to_owned(),
            revision_id: write_optional_uuid(of_revision_id(row.revision_id)),
            root_role,
            source_relative_path,
            is_snapshot: flag(row.is_snapshot),
            state: row.state.as_db().to_owned(),
            attempts: row.attempts as i64,
            lease_token: write_optional_uuid(of_token(row.lease_token)),
            lease_expires_at_ms: row.lease_expires_at_ms,
            not_before_ms: row.not_before_ms,
            settled_at_ms: row.settled_at_ms,
            settlement_reason: copy_reason(&row.settlement_reason),
            created_at_ms: row.created_at_ms,
        };
        assert(columns.meaning() =~= Ok::<DeliveryView, CatalogErrorView>(row@));
        columns
    }
}

/// The rows that a table's columns hold, or the refusal of the first that hold none.
pub open spec fn table_meaning<C: Columns>(rows: Seq<C>) -> Result<
    Seq<<C::Row as View>::V>,
    CatalogErrorView,
>
    decreases rows.len(),
{
    if rows.len() == 0 {
        Ok(Seq::empty())
    } else {
        match table_meaning(rows.drop_last()) {
            Err(error) => Err(error),
            Ok(before) => match rows.last().meaning() {
                Err(error) => Err(error),
                Ok(row) => Ok(before.push(row)),
            },
        }
    }
}

proof fn lemma_table_refused<C: Columns>(rows: Seq<C>, count: int)
    requires
        0 <= count <= rows.len(),
        table_meaning(rows.take(count)) is Err,
    ensures
        table_meaning(rows) == table_meaning(rows.take(count)),
    decreases rows.len(),
{
    if count == rows.len() {
        assert(rows.take(count) =~= rows);
    } else {
        assert(rows.drop_last().take(count) =~= rows.take(count));
        lemma_table_refused(rows.drop_last(), count);
    }
}

/// Reads a table.
pub fn read_table<C: Columns>(rows: &Vec<C>) -> (result: Result<Vec<C::Row>, CatalogError>)
    ensures
        (match result {
            Ok(found) => Ok(text::views(found@)),
            Err(error) => Err(error@),
        }) == table_meaning(rows@),
{
    let mut found: Vec<C::Row> = Vec::new();
    let mut i: usize = 0;
    assert(rows@.take(0) =~= Seq::empty());
    assert(text::views(found@) =~= Seq::empty());
    while i < rows.len()
        invariant
            0 <= i <= rows@.len(),
            table_meaning(rows@.take(i as int)) == Ok::<Seq<<C::Row as View>::V>, CatalogErrorView>(
                text::views(found@),
            ),
        decreases rows@.len() - i,
    {
        proof {
            assert(rows@.take(i + 1).drop_last() =~= rows@.take(i as int));
            assert(rows@.take(i + 1).last() == rows@[i as int]);
        }
        match rows[i].read() {
            Ok(row) => {
                proof {
                    text::lemma_views_push(found@, row);
                }
                found.push(row);
            },
            Err(error) => {
                proof {
                    lemma_table_refused(rows@, i + 1);
                }
                return Err(error);
            },
        }
        i += 1;
    }
    assert(rows@.take(rows@.len() as int) =~= rows@);
    Ok(found)
}

/// Writes a table.
pub fn write_table<C: Columns>(rows: &Vec<C::Row>) -> (result: Vec<C>)
    requires
        forall|i: int| 0 <= i < rows@.len() ==> C::storable((#[trigger] rows@[i])@),
    ensures
        table_meaning(result@) == Ok::<Seq<<C::Row as View>::V>, CatalogErrorView>(
            text::views(rows@),
        ),
{
    let mut written: Vec<C> = Vec::new();
    let mut i: usize = 0;
    let ghost all = text::views(rows@);
    assert(all.take(0) =~= Seq::empty());
    while i < rows.len()
        invariant
            0 <= i <= rows@.len(),
            all == text::views(rows@),
            forall|i: int| 0 <= i < rows@.len() ==> C::storable((#[trigger] rows@[i])@),
            table_meaning(written@) == Ok::<Seq<<C::Row as View>::V>, CatalogErrorView>(
                all.take(i as int),
            ),
        decreases rows@.len() - i,
    {
        let columns = C::write(&rows[i]);
        proof {
            assert(written@.push(columns).drop_last() =~= written@);
            assert(all.take(i + 1) =~= all.take(i as int).push(all[i as int]));
        }
        written.push(columns);
        i += 1;
    }
    assert(all.take(rows@.len() as int) =~= all);
    written
}

/// All tables of a catalog as their columns, numbered rows in ascending order.
#[derive(Debug, Eq, PartialEq)]
pub struct CatalogColumns {
    pub records: Vec<RecordColumns>,
    pub revisions: Vec<RevisionColumns>,
    pub events: Vec<EventColumns>,
    pub sources: Vec<SourceColumns>,
    pub observations: Vec<ObservationColumns>,
    pub source_records: Vec<SourceRecordColumns>,
    pub candidates: Vec<CandidateColumns>,
    pub scrubs: Vec<ScrubColumns>,
    pub subscriptions: Vec<SubscriptionColumns>,
    pub deliveries: Vec<DeliveryColumns>,
}

/// The rows that all tables hold, or the first refusal.
pub open spec fn rows_meaning(c: CatalogColumns) -> Result<LedgerView, CatalogErrorView> {
    let records = table_meaning(c.records@);
    let revisions = table_meaning(c.revisions@);
    let events = table_meaning(c.events@);
    let sources = table_meaning(c.sources@);
    let observations = table_meaning(c.observations@);
    let source_records = table_meaning(c.source_records@);
    let candidates = table_meaning(c.candidates@);
    let scrubs = table_meaning(c.scrubs@);
    let subscriptions = table_meaning(c.subscriptions@);
    let deliveries = table_meaning(c.deliveries@);
    if records is Err {
        Err(records->Err_0)
    } else if revisions is Err {
        Err(revisions->Err_0)
    } else if events is Err {
        Err(events->Err_0)
    } else if sources is Err {
        Err(sources->Err_0)
    } else if observations is Err {
        Err(observations->Err_0)
    } else if source_records is Err {
        Err(source_records->Err_0)
    } else if candidates is Err {
        Err(candidates->Err_0)
    } else if scrubs is Err {
        Err(scrubs->Err_0)
    } else if subscriptions is Err {
        Err(subscriptions->Err_0)
    } else if deliveries is Err {
        Err(deliveries->Err_0)
    } else {
        Ok(
            LedgerView {
                records: records->Ok_0,
                revisions: revisions->Ok_0,
                events: events->Ok_0,
                sources: sources->Ok_0,
                observations: observations->Ok_0,
                source_records: source_records->Ok_0,
                candidates: candidates->Ok_0,
                scrubs: scrubs->Ok_0,
                subscriptions: subscriptions->Ok_0,
                deliveries: deliveries->Ok_0,
            },
        )
    }
}

/// The catalog that all tables hold: one whose rows are in range and in order.
pub open spec fn catalog_meaning(c: CatalogColumns) -> Result<LedgerView, CatalogErrorView> {
    match rows_meaning(c) {
        Err(error) => Err(error),
        Ok(m) => if m.wf() {
            Ok(m)
        } else {
            Err(CatalogErrorView::Corrupt("stored rows are out of range or out of order"@))
        },
    }
}

fn number_fits(value: Option<u64>) -> (result: bool)
    ensures
        result == (value matches Some(number) ==> number <= MAX_STORED),
{
    match value {
        Some(number) => number <= MAX_STORED,
        None => true,
    }
}

fn check_records(rows: &Vec<RecordRow>) -> (result: bool)
    ensures
        result == forall|i: int|
            0 <= i < rows@.len() ==> ledger::record_ok((#[trigger] text::views(rows@)[i])),
{
    let ghost all = text::views(rows@);
    let mut i: usize = 0;
    while i < rows.len()
        invariant
            0 <= i <= rows@.len(),
            all == text::views(rows@),
            forall|j: int| 0 <= j < i ==> ledger::record_ok(#[trigger] all[j]),
        decreases rows@.len() - i,
    {
        let row = &rows[i];
        assert(all[i as int] == row@);
        proof {
            use_type_invariant(&row.identity);
            use_type_invariant(&row.location);
        }
        let fits: bool = row.record_version >= 1
            && row.record_version <= MAX_STORED;
        if !fits {
            assert(!ledger::record_ok(all[i as int]));
            return false;
        }
        i += 1;
    }
    true
}

fn check_revisions(rows: &Vec<RevisionRow>) -> (result: bool)
    ensures
        result == forall|i: int|
            0 <= i < rows@.len() ==> ledger::revision_ok((#[trigger] text::views(rows@)[i])),
{
    let ghost all = text::views(rows@);
    let mut i: usize = 0;
    while i < rows.len()
        invariant
            0 <= i <= rows@.len(),
            all == text::views(rows@),
            forall|j: int| 0 <= j < i ==> ledger::revision_ok(#[trigger] all[j]),
        decreases rows@.len() - i,
    {
        let row = &rows[i];
        assert(all[i as int] == row@);
        let digest = row.revision.digest();
        assert(row@.revision.digest == digest@);
        let fits: bool = row.revision.byte_length() <= MAX_STORED;
        if !fits {
            assert(!ledger::revision_ok(all[i as int]));
            return false;
        }
        i += 1;
    }
    true
}

fn check_events(rows: &Vec<ArchiveEvent>) -> (result: bool)
    ensures
        result == forall|i: int|
            0 <= i < rows@.len() ==> ledger::event_ok((#[trigger] text::views(rows@)[i])),
{
    let ghost all = text::views(rows@);
    let mut i: usize = 0;
    while i < rows.len()
        invariant
            0 <= i <= rows@.len(),
            all == text::views(rows@),
            forall|j: int| 0 <= j < i ==> ledger::event_ok(#[trigger] all[j]),
        decreases rows@.len() - i,
    {
        let row = &rows[i];
        assert(all[i as int] == row@);
        match &row.location {
            Some(location) => {
                proof {
                    use_type_invariant(location);
                }
            },
            None => {},
        }
        let fits: bool = row.sequence >= 1
            && row.sequence <= MAX_STORED
            && row.record_version >= 1
            && row.record_version <= MAX_STORED;
        if !fits {
            assert(!ledger::event_ok(all[i as int]));
            return false;
        }
        i += 1;
    }
    true
}

fn check_sources(rows: &Vec<SourceRow>) -> (result: bool)
    ensures
        result == forall|i: int|
            0 <= i < rows@.len() ==> ledger::source_ok((#[trigger] text::views(rows@)[i])),
{
    let ghost all = text::views(rows@);
    let mut i: usize = 0;
    while i < rows.len()
        invariant
            0 <= i <= rows@.len(),
            all == text::views(rows@),
            forall|j: int| 0 <= j < i ==> ledger::source_ok(#[trigger] all[j]),
        decreases rows@.len() - i,
    {
        let row = &rows[i];
        assert(all[i as int] == row@);
        let fits: bool = row.identity_schema_version != 0
            && row.next_generation <= MAX_STORED
            && row.last_complete_generation <= MAX_STORED;
        if !fits {
            assert(!ledger::source_ok(all[i as int]));
            return false;
        }
        i += 1;
    }
    true
}

fn check_observations(rows: &Vec<ObservationRow>) -> (result: bool)
    ensures
        result == forall|i: int|
            0 <= i < rows@.len() ==> ledger::observation_ok((#[trigger] text::views(rows@)[i])),
{
    let ghost all = text::views(rows@);
    let mut i: usize = 0;
    while i < rows.len()
        invariant
            0 <= i <= rows@.len(),
            all == text::views(rows@),
            forall|j: int| 0 <= j < i ==> ledger::observation_ok(#[trigger] all[j]),
        decreases rows@.len() - i,
    {
        let row = &rows[i];
        assert(all[i as int] == row@);
        proof {
            use_type_invariant(&row.location);
        }
        let fits: bool = row.fingerprint.byte_length <= MAX_STORED
            && number_fits(row.fingerprint.device)
            && number_fits(row.fingerprint.inode)
            && row.unchanged_observations >= 1
            && row.unchanged_observations <= MAX_STORED
            && row.last_seen_generation <= MAX_STORED;
        if !fits {
            assert(!ledger::observation_ok(all[i as int]));
            return false;
        }
        i += 1;
    }
    true
}

fn check_source_records(rows: &Vec<SourceRecordRow>) -> (result: bool)
    ensures
        result == forall|i: int|
            0 <= i < rows@.len() ==> ledger::source_record_ok((#[trigger] text::views(rows@)[i])),
{
    let ghost all = text::views(rows@);
    let mut i: usize = 0;
    while i < rows.len()
        invariant
            0 <= i <= rows@.len(),
            all == text::views(rows@),
            forall|j: int| 0 <= j < i ==> ledger::source_record_ok(#[trigger] all[j]),
        decreases rows@.len() - i,
    {
        let row = &rows[i];
        assert(all[i as int] == row@);
        let fits: bool = row.last_seen_generation <= MAX_STORED;
        if !fits {
            assert(!ledger::source_record_ok(all[i as int]));
            return false;
        }
        i += 1;
    }
    true
}

fn check_candidates(rows: &Vec<CandidateRow>) -> (result: bool)
    ensures
        result == forall|i: int|
            0 <= i < rows@.len() ==> ledger::candidate_ok((#[trigger] text::views(rows@)[i])),
{
    let ghost all = text::views(rows@);
    let mut i: usize = 0;
    while i < rows.len()
        invariant
            0 <= i <= rows@.len(),
            all == text::views(rows@),
            forall|j: int| 0 <= j < i ==> ledger::candidate_ok(#[trigger] all[j]),
        decreases rows@.len() - i,
    {
        let row = &rows[i];
        assert(all[i as int] == row@);
        let fits: bool = row.complete_guarded_scans >= 1
            && row.complete_guarded_scans <= MAX_STORED;
        if !fits {
            assert(!ledger::candidate_ok(all[i as int]));
            return false;
        }
        i += 1;
    }
    true
}

fn check_scrubs(rows: &Vec<ScrubRow>) -> (result: bool)
    ensures
        result == forall|i: int|
            0 <= i < rows@.len() ==> ledger::scrub_ok((#[trigger] text::views(rows@)[i])),
{
    let ghost all = text::views(rows@);
    let mut i: usize = 0;
    while i < rows.len()
        invariant
            0 <= i <= rows@.len(),
            all == text::views(rows@),
            forall|j: int| 0 <= j < i ==> ledger::scrub_ok(#[trigger] all[j]),
        decreases rows@.len() - i,
    {
        let row = &rows[i];
        assert(all[i as int] == row@);
        match &row.cursor {
            Some(location) => {
                proof {
                    use_type_invariant(location);
                }
            },
            None => {},
        }
        let fits: bool = row.completed_cycles <= MAX_STORED;
        if !fits {
            assert(!ledger::scrub_ok(all[i as int]));
            return false;
        }
        i += 1;
    }
    true
}

fn check_subscriptions(rows: &Vec<SubscriptionRow>) -> (result: bool)
    ensures
        result == forall|i: int|
            0 <= i < rows@.len() ==> ledger::subscription_ok((#[trigger] text::views(rows@)[i])),
{
    let ghost all = text::views(rows@);
    let mut i: usize = 0;
    while i < rows.len()
        invariant
            0 <= i <= rows@.len(),
            all == text::views(rows@),
            forall|j: int| 0 <= j < i ==> ledger::subscription_ok(#[trigger] all[j]),
        decreases rows@.len() - i,
    {
        let row = &rows[i];
        assert(all[i as int] == row@);
        let fits: bool = row.max_active_leases != 0
            && row.retry_policy.max_attempts() != 0
            && row.retry_policy.max_backoff_ms() >= row.retry_policy.initial_backoff_ms()
            && row.retry_policy.max_backoff_ms() <= MAX_STORED;
        if !fits {
            assert(!ledger::subscription_ok(all[i as int]));
            return false;
        }
        i += 1;
    }
    true
}

fn check_deliveries(rows: &Vec<DeliveryRow>) -> (result: bool)
    ensures
        result == forall|i: int|
            0 <= i < rows@.len() ==> ledger::delivery_ok((#[trigger] text::views(rows@)[i])),
{
    let ghost all = text::views(rows@);
    let mut i: usize = 0;
    while i < rows.len()
        invariant
            0 <= i <= rows@.len(),
            all == text::views(rows@),
            forall|j: int| 0 <= j < i ==> ledger::delivery_ok(#[trigger] all[j]),
        decreases rows@.len() - i,
    {
        let row = &rows[i];
        assert(all[i as int] == row@);
        match &row.location {
            Some(location) => {
                proof {
                    use_type_invariant(location);
                }
            },
            None => {},
        }
        let fits: bool = row.id >= 1
            && row.id <= MAX_STORED
            && number_fits(row.event_sequence)
            && row.record_version >= 1
            && row.record_version <= MAX_STORED;
        if !fits {
            assert(!ledger::delivery_ok(all[i as int]));
            return false;
        }
        i += 1;
    }
    true
}

fn check_events_order(rows: &Vec<ArchiveEvent>) -> (result: bool)
    ensures
        result == ledger::events_ascend(text::views(rows@)),
{
    let ghost all = text::views(rows@);
    let mut i: usize = 1;
    while i < rows.len()
        invariant
            1 <= i,
            i <= rows@.len() || rows@.len() == 0,
            all == text::views(rows@),
            forall|a: int, b: int|
                0 <= a < b < i && b < all.len() ==> (#[trigger] all[a]).sequence
                    < (#[trigger] all[b]).sequence,
        decreases rows@.len() - i,
    {
        assert(all[i - 1] == rows@[i - 1]@ && all[i as int] == rows@[i as int]@);
        if rows[i - 1].sequence >= rows[i].sequence {
            return false;
        }
        i += 1;
    }
    true
}

fn check_deliveries_order(rows: &Vec<DeliveryRow>) -> (result: bool)
    ensures
        result == ledger::deliveries_ascend(text::views(rows@)),
{
    let ghost all = text::views(rows@);
    let mut i: usize = 1;
    while i < rows.len()
        invariant
            1 <= i,
            i <= rows@.len() || rows@.len() == 0,
            all == text::views(rows@),
            forall|a: int, b: int|
                0 <= a < b < i && b < all.len() ==> (#[trigger] all[a]).id
                    < (#[trigger] all[b]).id,
        decreases rows@.len() - i,
    {
        assert(all[i - 1] == rows@[i - 1]@ && all[i as int] == rows@[i as int]@);
        if rows[i - 1].id >= rows[i].id {
            return false;
        }
        i += 1;
    }
    true
}

impl Catalog {
    /// Reads a catalog from its tables.
    pub fn from_columns(columns: &CatalogColumns) -> (result: Result<Catalog, CatalogError>)
        ensures
            match result {
                Ok(catalog) => catalog.wf() && catalog_meaning(*columns) == Ok::<
                    LedgerView,
                    CatalogErrorView,
                >(catalog@),
                Err(error) => catalog_meaning(*columns) == Err::<LedgerView, CatalogErrorView>(
                    error@,
                ),
            },
    {
        let records = read_table(&columns.records)?;
        let revisions = read_table(&columns.revisions)?;
        let events = read_table(&columns.events)?;
        let sources = read_table(&columns.sources)?;
        let observations = read_table(&columns.observations)?;
        let source_records = read_table(&columns.source_records)?;
        let candidates = read_table(&columns.candidates)?;
        let scrubs = read_table(&columns.scrubs)?;
        let subscriptions = read_table(&columns.subscriptions)?;
        let deliveries = read_table(&columns.deliveries)?;
        let catalog = Catalog {
            records,
            revisions,
            events,
            sources,
            observations,
            source_records,
            candidates,
            scrubs,
            subscriptions,
            deliveries,
        };
        if check_records(&catalog.records)
            && check_revisions(&catalog.revisions)
            && check_events(&catalog.events)
            && check_sources(&catalog.sources)
            && check_observations(&catalog.observations)
            && check_source_records(&catalog.source_records)
            && check_candidates(&catalog.candidates)
            && check_scrubs(&catalog.scrubs)
            && check_subscriptions(&catalog.subscriptions)
            && check_deliveries(&catalog.deliveries)
            && check_events_order(&catalog.events)
            && check_deliveries_order(&catalog.deliveries)
        {
            Ok(catalog)
        } else {
            Err(CatalogError::Corrupt("stored rows are out of range or out of order".to_owned()))
        }
    }

    /// Writes a catalog to its tables, which read back as the catalog.
    pub fn to_columns(&self) -> (result: CatalogColumns)
        requires
            self.wf(),
        ensures
            catalog_meaning(result) == Ok::<LedgerView, CatalogErrorView>(self@),
    {
        assert forall|i: int| 0 <= i < self.records@.len() implies ledger::record_ok(
            (#[trigger] self.records@[i])@,
        ) by {
            assert(self@.records[i] == self.records@[i]@);
        }
        assert forall|i: int| 0 <= i < self.revisions@.len() implies ledger::revision_ok(
            (#[trigger] self.revisions@[i])@,
        ) by {
            assert(self@.revisions[i] == self.revisions@[i]@);
        }
        assert forall|i: int| 0 <= i < self.events@.len() implies ledger::event_ok(
            (#[trigger] self.events@[i])@,
        ) by {
            assert(self@.events[i] == self.events@[i]@);
        }
        assert forall|i: int| 0 <= i < self.sources@.len() implies ledger::source_ok(
            (#[trigger] self.sources@[i])@,
        ) by {
            assert(self@.sources[i] == self.sources@[i]@);
        }
        assert forall|i: int| 0 <= i < self.observations@.len() implies ledger::observation_ok(
            (#[trigger] self.observations@[i])@,
        ) by {
            assert(self@.observations[i] == self.observations@[i]@);
        }
        assert forall|i: int| 0 <= i < self.source_records@.len() implies ledger::source_record_ok(
            (#[trigger] self.source_records@[i])@,
        ) by {
            assert(self@.source_records[i] == self.source_records@[i]@);
        }
        assert forall|i: int| 0 <= i < self.candidates@.len() implies ledger::candidate_ok(
            (#[trigger] self.candidates@[i])@,
        ) by {
            assert(self@.candidates[i] == self.candidates@[i]@);
        }
        assert forall|i: int| 0 <= i < self.scrubs@.len() implies ledger::scrub_ok(
            (#[trigger] self.scrubs@[i])@,
        ) by {
            assert(self@.scrubs[i] == self.scrubs@[i]@);
        }
        assert forall|i: int| 0 <= i < self.subscriptions@.len() implies ledger::subscription_ok(
            (#[trigger] self.subscriptions@[i])@,
        ) by {
            assert(self@.subscriptions[i] == self.subscriptions@[i]@);
        }
        assert forall|i: int| 0 <= i < self.deliveries@.len() implies ledger::delivery_ok(
            (#[trigger] self.deliveries@[i])@,
        ) by {
            assert(self@.deliveries[i] == self.deliveries@[i]@);
        }
        let columns = CatalogColumns {
            records: write_table(&self.records),
            revisions: write_table(&self.revisions),
            events: write_table(&self.events),
            sources: write_table(&self.sources),
            observations: write_table(&self.observations),
            source_records: write_table(&self.source_records),
            candidates: write_table(&self.candidates),
            scrubs: write_table(&self.scrubs),
            subscriptions: write_table(&self.subscriptions),
            deliveries: write_table(&self.deliveries),
        };
        assert(rows_meaning(columns)->Ok_0 =~= self@);
        columns
    }
}

} // verus!
