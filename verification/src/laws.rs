//! What the catalog promises of its operations together.
use crate::catalog::{
    CatalogErrorView, RegistrationView, ScanView, SourceFingerprint, TombstoneGrace, MAX_STORED,
};
use crate::consistency;
use crate::delivery::{DeliveryErrorView, DeliveryState, LeaseToken, LeaseView, SubscriptionId};
use crate::domain::{
    DeliveryOutcome, EventId, EventKind, EventView, IdentityView, LocationView, RecordId,
    RecordState, RevisionView,
};
use crate::leases;
use crate::ledger;
use crate::ledger::LedgerView;
use crate::records;
use crate::records::{ChangeView, ObservationIds};
use crate::sources;
use vstd::prelude::*;

verus! {

/// Every change takes its record to the next version and the archive to the next sequence number,
/// and queues one entry for every subscription, paused ones too.
pub proof fn law_change_steps_by_one(m: LedgerView, at: int, change: ChangeView)
    requires
        0 <= at < m.records.len(),
    ensures
        records::change_record(m, at, change) matches Ok((next, event)) ==> {
            &&& event.record_id == m.records[at].id
            &&& event.record_version == m.records[at].record_version + 1
            &&& next.records[at].record_version == event.record_version
            &&& event.sequence == m.latest_sequence() + 1
            &&& next.events == m.events.push(event)
            &&& next.latest_sequence() == event.sequence
            &&& next.deliveries.len() == m.deliveries.len() + m.subscriptions.len()
            &&& forall|s: int|
                0 <= s < m.subscriptions.len() ==> {
                    &&& (#[trigger] next.deliveries[m.deliveries.len() + s]).subscription_id
                        == m.subscriptions[s].id
                    &&& next.deliveries[m.deliveries.len() + s].event_id == event.id
                    &&& next.deliveries[m.deliveries.len() + s].record_version
                        == event.record_version
                }
        },
{
}

/// A refused change leaves nothing behind: there is no next catalog.
pub proof fn law_version_headroom(m: LedgerView, at: int, change: ChangeView)
    requires
        0 <= at < m.records.len(),
        m.records[at].record_version >= MAX_STORED,
    ensures
        records::change_record(m, at, change) is Err,
{
}

/// Where the record with this identity stands behind an observation.
spec fn place_after(m: LedgerView, identity: IdentityView) -> int {
    match m.record_with(identity) {
        Some(at) => at,
        None => m.records.len() as int,
    }
}

/// The bytes a revision id stands for are those of its first row.
proof fn lemma_revision_bytes(m: LedgerView, j: int)
    requires
        consistency::revisions_distinct(m.revisions),
        0 <= j < m.revisions.len(),
    ensures
        m.revision_bytes(Some(m.revisions[j].id)) == Some(m.revisions[j].revision),
{
    let accepts = ledger::has_revision_id(m.revisions[j].id);
    assert forall|k: int| 0 <= k < j implies !accepts(#[trigger] m.revisions[k]) by {
        assert(m.revisions[k].id != m.revisions[j].id);
    }
    ledger::lemma_found(m.revisions, accepts, j);
}

/// Behind a change the same record is found under the same identity.
proof fn lemma_same_place(m: LedgerView, next: LedgerView, identity: IdentityView, at: int)
    requires
        ledger::is_first(m.records, ledger::has_identity(identity), at),
        next.records.len() == m.records.len(),
        forall|i: int|
            0 <= i < m.records.len() ==> (#[trigger] next.records[i]).identity
                == m.records[i].identity,
    ensures
        next.record_with(identity) == Some(at),
{
    let accepts = ledger::has_identity(identity);
    assert forall|j: int| 0 <= j < at implies !accepts(#[trigger] next.records[j]) by {
        assert(!accepts(m.records[j]));
    }
    assert(accepts(m.records[at]));
    ledger::lemma_found(next.records, accepts, at);
}

/// An accepted observation is what the catalog then holds: the record is active, at the observed
/// location, with the observed bytes, one version further for each event.
pub proof fn law_observation_becomes_current(
    m: LedgerView,
    identity: IdentityView,
    location: LocationView,
    revision: RevisionView,
    at_ms: i64,
    ids: ObservationIds,
)
    requires
        m.wf(),
        consistency::consistent(m),
    ensures
        records::observe(m, identity, location, revision, at_ms, ids) matches Ok((next, events))
            ==> {
            &&& records::current(next, identity) matches Some(now)
            &&& now.state == RecordState::Active
            &&& now.location == location
            &&& now.revision == Some(revision)
            &&& now.record_version == (match records::current(m, identity) {
                Some(before) => before.record_version as int,
                None => 0,
            }) + events.len()
        },
{
    ledger::lemma_find_first(m.records, ledger::has_identity(identity));
    if let Ok((next, events)) = records::observe(m, identity, location, revision, at_ms, ids) {
        let at = place_after(m, identity);
        let row = records::unborn(ids.record_id, identity, location, at_ms);
        let base = match m.record_with(identity) {
            Some(_) => m,
            None => LedgerView { records: m.records.push(row), ..m },
        };
        let accepts = ledger::has_identity(identity);
        if m.record_with(identity) is None {
            consistency::lemma_unborn_consistent(m, row);
            assert forall|j: int| 0 <= j < at implies !accepts(#[trigger] base.records[j]) by {
                assert(!accepts(m.records[j]));
            }
        }
        assert(ledger::is_first(base.records, accepts, at));
        lemma_observe_at(base, at, location, revision, at_ms, ids);
        lemma_same_place(base, next, identity, at);
    }
}

/// An observation touches no other record, and never a record's identity.
proof fn lemma_observe_at(
    m: LedgerView,
    at: int,
    location: LocationView,
    revision: RevisionView,
    at_ms: i64,
    ids: ObservationIds,
)
    requires
        consistency::consistent(m),
        0 <= at < m.records.len(),
    ensures
        records::observe_at(m, at, location, revision, at_ms, ids) matches Ok((next, events))
            ==> {
            &&& next.records.len() == m.records.len()
            &&& forall|i: int|
                0 <= i < m.records.len() ==> {
                    &&& (#[trigger] next.records[i]).identity == m.records[i].identity
                    &&& next.records[i].id == m.records[i].id
                    &&& i != at ==> next.records[i] == m.records[i]
                }
            &&& next.records[at].state == RecordState::Active
            &&& next.records[at].location == location
            &&& next.records[at].record_version == m.records[at].record_version + events.len()
            &&& next.revision_bytes(next.records[at].current_revision_id) == Some(revision)
            &&& consistency::consistent(next)
        },
{
    if let Ok((next, events)) = records::observe_at(m, at, location, revision, at_ms, ids) {
        let record = m.records[at];
        let restores = record.state == RecordState::Tombstoned;
        let restoration = ChangeView {
            event_id: ids.first_event,
            kind: EventKind::RecordRestored,
            revision_id: record.current_revision_id,
            location,
            state: RecordState::Active,
            at_ms,
        };
        consistency::lemma_observe_at_consistent(m, at, location, revision, at_ms, ids);
        let m1 = if restores {
            records::changed(m, at, restoration)
        } else {
            m
        };
        consistency::lemma_current_known(m, at);
        if restores {
            consistency::lemma_changed_consistent(m, at, restoration);
        }
        consistency::lemma_know_revision_consistent(
            m1,
            record.id,
            revision,
            at_ms,
            ids.revision_id,
        );
        let known = records::know_revision(m1, record.id, revision, at_ms, ids.revision_id);
        let m2 = known->Ok_0.0;
        let revision_id = known->Ok_0.1;
        let j = choose|j: int|
            0 <= j < m2.revisions.len() && (#[trigger] m2.revisions[j]).id == revision_id
                && m2.revisions[j].record_id == record.id && m2.revisions[j].revision == revision;
        assert(next.revisions == m2.revisions);
        lemma_revision_bytes(next, j);
        if m.revision_bytes(record.current_revision_id) == Some(revision) {
            let id = record.current_revision_id->Some_0;
            ledger::lemma_find_first(m.revisions, ledger::has_revision_id(id));
            let k = ledger::find_first(m.revisions, ledger::has_revision_id(id))->Some_0;
            assert(m.revisions[k].id == id && m.revisions[k].revision == revision);
            assert(m1.revisions[k] == m.revisions[k]);
            assert(m2.revisions[k].id == id && m2.revisions[k].revision == revision);
            lemma_revision_bytes(next, k);
            assert(next.records[at].current_revision_id == Some(id));
        } else {
            assert(next.records[at].current_revision_id == Some(revision_id));
        }
    }
}

/// What the catalog holds of an identity before an observation at this location: the record's
/// state, location, bytes and version. A record that is not cataloged stands active at that
/// location, without bytes, at version zero.
pub open spec fn standing(m: LedgerView, identity: IdentityView, location: LocationView) -> (
    RecordState,
    LocationView,
    Option<RevisionView>,
    nat,
) {
    match records::current(m, identity) {
        Some(record) => (
            record.state,
            record.location,
            record.revision,
            record.record_version as nat,
        ),
        None => (RecordState::Active, location, None, 0),
    }
}

/// The kinds of the events that an observation makes of a record that stands like this: a
/// restoration where it is deleted; behind that a commitment where its bytes are others; and else
/// a move where it was active at another location.
pub open spec fn observation_kinds(
    before: (RecordState, LocationView, Option<RevisionView>, nat),
    location: LocationView,
    revision: RevisionView,
) -> Seq<EventKind> {
    let restored = if before.0 == RecordState::Tombstoned {
        seq![EventKind::RecordRestored]
    } else {
        Seq::empty()
    };
    if before.2 != Some(revision) {
        restored.push(EventKind::RevisionCommitted)
    } else if before.0 == RecordState::Active && before.1 != location {
        restored.push(EventKind::LocationChanged)
    } else {
        restored
    }
}

/// An observation, as a whole: it makes the events that follow from how the record stood, one
/// version each; the record keeps its id and then stands active at the observed location with the
/// observed bytes; and the same observation again makes no event.
pub proof fn law_observation_makes_what_follows(
    m: LedgerView,
    identity: IdentityView,
    location: LocationView,
    revision: RevisionView,
    at_ms: i64,
    ids: ObservationIds,
    again_ms: i64,
    again_ids: ObservationIds,
)
    requires
        consistency::consistent(m),
    ensures
        records::observe(m, identity, location, revision, at_ms, ids) matches Ok((next, events))
            ==> {
            let before = standing(m, identity, location);
            let kinds = observation_kinds(before, location, revision);
            &&& events.len() == kinds.len()
            &&& records::current(next, identity) matches Some(now)
            &&& records::current(m, identity) matches Some(known) ==> now.id == known.id
            &&& now.state == RecordState::Active
            &&& now.location == location
            &&& now.revision == Some(revision)
            &&& now.record_version == before.3 + events.len()
            &&& forall|i: int|
                0 <= i < events.len() ==> {
                    &&& (#[trigger] events[i]).kind == kinds[i]
                    &&& events[i].record_id == now.id
                    &&& events[i].record_version == before.3 + 1 + i
                    &&& events[i].location == Some(location)
                    &&& events[i].committed_at_ms == at_ms
                }
            &&& events.len() > 0 ==> events.last().revision_id == now.revision_id
            &&& next.events == m.events + events
            &&& records::observe(
                next,
                identity,
                location,
                revision,
                again_ms,
                again_ids,
            ) matches Ok((after, more))
            &&& more.len() == 0
            &&& after.events == next.events
            &&& after.records == next.records
            &&& after.deliveries == next.deliveries
        },
{
    ledger::lemma_find_first(m.records, ledger::has_identity(identity));
    if let Ok((next, events)) = records::observe(m, identity, location, revision, at_ms, ids) {
        let at = place_after(m, identity);
        let row = records::unborn(ids.record_id, identity, location, at_ms);
        let base = match m.record_with(identity) {
            Some(_) => m,
            None => LedgerView { records: m.records.push(row), ..m },
        };
        let accepts = ledger::has_identity(identity);
        if m.record_with(identity) is None {
            consistency::lemma_unborn_consistent(m, row);
            assert forall|j: int| 0 <= j < at implies !accepts(#[trigger] base.records[j]) by {
                assert(!accepts(m.records[j]));
            }
        }
        assert(ledger::is_first(base.records, accepts, at));
        lemma_observe_at(base, at, location, revision, at_ms, ids);
        lemma_same_place(base, next, identity, at);
        assert(next.events =~= m.events + events);
        let record = next.records[at];
        let id = record.current_revision_id->Some_0;
        consistency::lemma_current_known(next, at);
        let j = choose|j: int|
            0 <= j < next.revisions.len() && (#[trigger] next.revisions[j]).id == id
                && next.revisions[j].record_id == record.id;
        lemma_revision_bytes(next, j);
        let known = ledger::has_revision(record.id, revision);
        assert(known(next.revisions[j]));
        ledger::lemma_find_first(next.revisions, known);
        assert(ledger::find_first(next.revisions, known) is Some);
        assert(revision.byte_length <= MAX_STORED);
        assert(base.records[at].state == standing(m, identity, location).0);
        assert(base.records[at].location == standing(m, identity, location).1);
        assert(base.revision_bytes(base.records[at].current_revision_id) == standing(
            m,
            identity,
            location,
        ).2);
    }
}

/// A move makes neither a record nor a revision: observing a cataloged record's current bytes,
/// wherever they lie, adds no row to either table.
pub proof fn law_move_makes_no_revision(
    m: LedgerView,
    identity: IdentityView,
    location: LocationView,
    revision: RevisionView,
    at_ms: i64,
    ids: ObservationIds,
)
    requires
        consistency::consistent(m),
        records::current(m, identity) matches Some(now) && now.revision == Some(revision),
    ensures
        records::observe(m, identity, location, revision, at_ms, ids) matches Ok((next, events))
            ==> next.records.len() == m.records.len() && next.revisions.len() == m.revisions.len(),
{
    ledger::lemma_find_first(m.records, ledger::has_identity(identity));
    let at = m.record_with(identity)->Some_0;
    let record = m.records[at];
    let id = record.current_revision_id->Some_0;
    consistency::lemma_current_known(m, at);
    let j = choose|j: int|
        0 <= j < m.revisions.len() && (#[trigger] m.revisions[j]).id == id
            && m.revisions[j].record_id == record.id;
    lemma_revision_bytes(m, j);
    let known = ledger::has_revision(record.id, revision);
    assert(known(m.revisions[j]));
    ledger::lemma_find_first(m.revisions, known);
    assert(ledger::find_first(m.revisions, known) is Some);
}

/// A rewrite commits exactly one revision: observing other bytes of an active record makes one
/// event, which commits them, and one revision where the record never had those bytes before.
pub proof fn law_rewrite_commits_one_revision(
    m: LedgerView,
    identity: IdentityView,
    location: LocationView,
    revision: RevisionView,
    at_ms: i64,
    ids: ObservationIds,
)
    requires
        records::current(m, identity) matches Some(now) && now.state == RecordState::Active
            && now.revision != Some(revision),
    ensures
        records::observe(m, identity, location, revision, at_ms, ids) matches Ok((next, events))
            ==> {
            let record = m.records[m.record_with(identity)->Some_0];
            let known = ledger::find_first(
                m.revisions,
                ledger::has_revision(record.id, revision),
            ) is Some;
            &&& events.len() == 1
            &&& events[0].kind == EventKind::RevisionCommitted
            &&& events[0].record_version == record.record_version + 1
            &&& next.records.len() == m.records.len()
            &&& next.revisions.len() == m.revisions.len() + (if known {
                0int
            } else {
                1int
            })
        },
{
}

/// Identity does not depend on the path: an observation of a cataloged identity, wherever the
/// record lies now, adds no record and leaves every other record as it was.
pub proof fn law_identity_is_path_independent(
    m: LedgerView,
    identity: IdentityView,
    location: LocationView,
    revision: RevisionView,
    at_ms: i64,
    ids: ObservationIds,
)
    requires
        m.wf(),
        consistency::consistent(m),
        m.record_with(identity) is Some,
    ensures
        records::observe(m, identity, location, revision, at_ms, ids) matches Ok((next, events))
            ==> {
            let at = m.record_with(identity)->Some_0;
            &&& next.records.len() == m.records.len()
            &&& next.records[at].id == m.records[at].id
            &&& next.records[at].identity == identity
            &&& forall|i: int|
                0 <= i < m.records.len() && i != at ==> #[trigger] next.records[i] == m.records[i]
        },
{
    ledger::lemma_find_first(m.records, ledger::has_identity(identity));
    let at = m.record_with(identity)->Some_0;
    lemma_observe_at(m, at, location, revision, at_ms, ids);
}

/// Observing what the catalog already holds is silent: no event, no queue entry, and no record
/// changes.
pub proof fn law_unchanged_observation_is_silent(
    m: LedgerView,
    identity: IdentityView,
    location: LocationView,
    revision: RevisionView,
    at_ms: i64,
    ids: ObservationIds,
)
    requires
        m.wf(),
        consistency::consistent(m),
        records::current(m, identity) matches Some(now) && now.state == RecordState::Active
            && now.location == location && now.revision == Some(revision),
    ensures
        records::observe(m, identity, location, revision, at_ms, ids) matches Ok((next, events))
            && events.len() == 0 && next.records == m.records && next.events == m.events
            && next.deliveries == m.deliveries,
{
    ledger::lemma_find_first(m.records, ledger::has_identity(identity));
    let at = m.record_with(identity)->Some_0;
    let record = m.records[at];
    let id = record.current_revision_id->Some_0;
    consistency::lemma_current_known(m, at);
    let j = choose|j: int|
        0 <= j < m.revisions.len() && (#[trigger] m.revisions[j]).id == id
            && m.revisions[j].record_id == record.id;
    lemma_revision_bytes(m, j);
    let accepts = ledger::has_revision(record.id, revision);
    assert(ledger::revision_ok(m.revisions[j]));
    assert(accepts(m.revisions[j]));
    ledger::lemma_find_first(m.revisions, accepts);
    assert(ledger::find_first(m.revisions, accepts) is Some);
}

/// Observing the same record twice commits it once.
pub proof fn law_repeated_observation_is_silent(
    m: LedgerView,
    identity: IdentityView,
    location: LocationView,
    revision: RevisionView,
    first_ms: i64,
    first_ids: ObservationIds,
    second_ms: i64,
    second_ids: ObservationIds,
)
    requires
        m.wf(),
        consistency::consistent(m),
        location.valid(),
        identity.valid(),
        revision.digest.len() == 32,
        records::observe(m, identity, location, revision, first_ms, first_ids) is Ok,
    ensures
        ({
            let next = records::observe(
                m,
                identity,
                location,
                revision,
                first_ms,
                first_ids,
            )->Ok_0.0;
            records::observe(next, identity, location, revision, second_ms, second_ids) matches Ok(
                (after, events),
            ) && events.len() == 0 && after.events == next.events
        }),
{
    let next = records::observe(m, identity, location, revision, first_ms, first_ids)->Ok_0.0;
    law_observation_becomes_current(m, identity, location, revision, first_ms, first_ids);
    consistency::law_observe_keeps_consistent(
        m,
        identity,
        location,
        revision,
        first_ms,
        first_ids,
    );
    records::lemma_observe_wf(m, identity, location, revision, first_ms, first_ids);
    law_unchanged_observation_is_silent(
        next,
        identity,
        location,
        revision,
        second_ms,
        second_ids,
    );
}

/// Deleting and restoring a record never reuses a version: the deletion, and the restoration
/// behind it, each take the next one.
pub proof fn law_restore_takes_a_later_version(
    m: LedgerView,
    identity: IdentityView,
    deleted_ms: i64,
    event_id: EventId,
    location: LocationView,
    revision: RevisionView,
    restored_ms: i64,
    ids: ObservationIds,
)
    requires
        m.wf(),
        consistency::consistent(m),
    ensures
        records::tombstone(m, identity, deleted_ms, event_id) matches Ok((gone, Some(deletion)))
            ==> {
            &&& deletion.kind == EventKind::RecordTombstoned
            &&& deletion.record_version == records::current(m, identity)->Some_0.record_version + 1
            &&& records::observe(
                gone,
                identity,
                location,
                revision,
                restored_ms,
                ids,
            ) matches Ok((back, events)) ==> {
                &&& events.len() > 0
                &&& events[0].kind == EventKind::RecordRestored
                &&& events[0].record_version == deletion.record_version + 1
            }
        },
{
    ledger::lemma_find_first(m.records, ledger::has_identity(identity));
    if let Ok((gone, Some(deletion))) = records::tombstone(m, identity, deleted_ms, event_id) {
        let at = m.record_with(identity)->Some_0;
        lemma_same_place(m, gone, identity, at);
        assert(gone.records[at].state == RecordState::Tombstoned);
        if let Ok((back, events)) = records::observe(
            gone,
            identity,
            location,
            revision,
            restored_ms,
            ids,
        ) {
            assert(events[0].kind == EventKind::RecordRestored);
        }
    }
}

/// Deleting what is deleted, or was never cataloged, changes nothing.
pub proof fn law_tombstone_is_idempotent(
    m: LedgerView,
    identity: IdentityView,
    first_ms: i64,
    first_event: EventId,
    second_ms: i64,
    second_event: EventId,
)
    requires
        records::tombstone(m, identity, first_ms, first_event) is Ok,
    ensures
        ({
            let next = records::tombstone(m, identity, first_ms, first_event)->Ok_0.0;
            records::tombstone(next, identity, second_ms, second_event) == Ok::<
                (LedgerView, Option<EventView>),
                CatalogErrorView,
            >((next, None))
        }),
{
    ledger::lemma_find_first(m.records, ledger::has_identity(identity));
    let next = records::tombstone(m, identity, first_ms, first_event)->Ok_0.0;
    if let Some(at) = m.record_with(identity) {
        lemma_same_place(m, next, identity, at);
    }
}

/// Without a grace, completing a scan never deletes anything, however long records are missing.
pub proof fn law_disabled_deletion_never_tombstones(
    m: LedgerView,
    scan: ScanView,
    at_ms: i64,
    event_ids: Seq<EventId>,
)
    ensures
        sources::complete(m, scan, None, at_ms, event_ids) matches Ok((next, events)) ==> {
            &&& events.len() == 0
            &&& next.records == m.records
            &&& next.events == m.events
            &&& next.deliveries == m.deliveries
            &&& next.candidates == m.candidates
        },
{
}

/// A missing record is deleted only once both the complete scans and the elapsed time reach the
/// grace.
pub proof fn law_deletion_needs_scans_and_time(
    m: LedgerView,
    scan: ScanView,
    grace: TombstoneGrace,
    at_ms: i64,
    record_id: RecordId,
    event_id: EventId,
)
    ensures
        sources::miss(m, scan, grace, at_ms, record_id, event_id) matches Ok((next, events))
            && events.len() > 0 ==> {
            let row = sources::missed(m, scan, record_id, at_ms);
            &&& row.complete_guarded_scans >= grace.min_complete_scans
            &&& sources::elapsed(row.first_missing_at_ms, at_ms) >= grace.min_elapsed_ms
        },
{
}

/// The first miss of a record is remembered while further scans miss it.
pub proof fn law_first_miss_is_kept(
    m: LedgerView,
    scan: ScanView,
    record_id: RecordId,
    first_ms: i64,
    next_scan: ScanView,
    next_ms: i64,
)
    ensures
        ({
            let first = sources::missed(m, scan, record_id, first_ms);
            let counted = sources::with_candidate(m, first);
            let second = sources::missed(counted, next_scan, record_id, next_ms);
            &&& second.first_missing_at_ms == first.first_missing_at_ms
            &&& first.complete_guarded_scans < u64::MAX ==> second.complete_guarded_scans
                == first.complete_guarded_scans + 1
        }),
{
    let accepts = sources::is_candidate(record_id);
    let first = sources::missed(m, scan, record_id, first_ms);
    ledger::lemma_find_first(m.candidates, accepts);
    let counted = sources::with_candidate(m, first);
    match ledger::find_first(m.candidates, accepts) {
        Some(at) => {
            assert(accepts(m.candidates[at]));
            assert forall|j: int| 0 <= j < at implies !accepts(#[trigger] counted.candidates[j]) by {
                assert(!accepts(m.candidates[j]));
            }
            ledger::lemma_found(counted.candidates, accepts, at);
        },
        None => {
            let at = m.candidates.len() as int;
            assert forall|j: int| 0 <= j < at implies !accepts(#[trigger] counted.candidates[j]) by {
                assert(!accepts(m.candidates[j]));
            }
            ledger::lemma_found(counted.candidates, accepts, at);
        },
    }
}

/// Seeing a record again cancels its pending deletion.
pub proof fn law_sighting_cancels_deletion(m: LedgerView, scan: ScanView, record_id: RecordId)
    ensures
        sources::bind(m, scan, record_id) matches Ok(next) ==> ledger::find_first(
            next.candidates,
            sources::is_candidate(record_id),
        ) is None,
{
    if let Ok(next) = sources::bind(m, scan, record_id) {
        let keep = sources::is_no_candidate(record_id);
        assert forall|i: int| 0 <= i < next.candidates.len() implies !sources::is_candidate(
            record_id,
        )(#[trigger] next.candidates[i]) by {
            m.candidates.lemma_filter_pred(keep, i);
        }
        ledger::lemma_not_found(next.candidates, sources::is_candidate(record_id));
    }
}

/// The source rows behind an update of one of them.
proof fn lemma_source_place(m: LedgerView, next: LedgerView, source_id: Seq<char>, at: int)
    requires
        ledger::is_first(m.sources, ledger::has_source_id(source_id), at),
        next.sources.len() == m.sources.len(),
        forall|i: int|
            0 <= i < m.sources.len() ==> (#[trigger] next.sources[i]).source_id
                == m.sources[i].source_id,
    ensures
        next.source_at(source_id) == Some(at),
{
    let accepts = ledger::has_source_id(source_id);
    assert forall|j: int| 0 <= j < at implies !accepts(#[trigger] next.sources[j]) by {
        assert(!accepts(m.sources[j]));
    }
    assert(accepts(m.sources[at]));
    ledger::lemma_found(next.sources, accepts, at);
}

/// Only the scan that was begun last is current: beginning a scan makes every other generation of
/// its source stale.
pub proof fn law_begun_scan_is_the_only_current_one(
    m: LedgerView,
    registration: RegistrationView,
    generation: u64,
)
    requires
        m.wf(),
        forall|i: int|
            0 <= i < m.sources.len() ==> (#[trigger] m.sources[i]).last_complete_generation
                <= m.sources[i].next_generation,
    ensures
        sources::begin(m, registration) matches Ok((next, begun)) ==> (sources::scan_refusal(
            next,
            (ScanView { source_id: registration.source_id, generation }),
        ) is None <==> generation == begun),
{
    ledger::lemma_find_first(m.sources, ledger::has_source_id(registration.source_id));
    if let Ok((next, begun)) = sources::begin(m, registration) {
        match m.source_at(registration.source_id) {
            Some(at) => {
                assert(m.sources[at].last_complete_generation <= m.sources[at].next_generation);
                lemma_source_place(m, next, registration.source_id, at);
            },
            None => {
                let accepts = ledger::has_source_id(registration.source_id);
                let at = m.sources.len() as int;
                assert forall|j: int| 0 <= j < at implies !accepts(#[trigger] next.sources[j]) by {
                    assert(!accepts(m.sources[j]));
                }
                ledger::lemma_found(next.sources, accepts, at);
            },
        }
    }
}

/// A stale scan can neither observe, nor bind, nor complete: it is refused and changes nothing.
pub proof fn law_stale_scan_is_refused(
    m: LedgerView,
    scan: ScanView,
    registration: RegistrationView,
    identity: IdentityView,
    location: LocationView,
    fingerprint: SourceFingerprint,
    grace: Option<TombstoneGrace>,
    at_ms: i64,
    event_ids: Seq<EventId>,
)
    requires
        sources::scan_refusal(m, scan) is Some,
    ensures
        sources::look(m, scan, location, fingerprint).0 == m,
        sources::look(m, scan, location, fingerprint).1 is Err,
        sources::admit_hash(m, scan, location) is Err,
        sources::mark_seen(m, scan, registration, identity) is Err,
        sources::complete(m, scan, grace, at_ms, event_ids) is Err,
{
}

/// A scan completes once: behind its completion it is stale.
pub proof fn law_completed_scan_is_over(
    m: LedgerView,
    scan: ScanView,
    grace: Option<TombstoneGrace>,
    at_ms: i64,
    event_ids: Seq<EventId>,
)
    ensures
        sources::complete(m, scan, grace, at_ms, event_ids) matches Ok((next, events))
            ==> sources::scan_refusal(next, scan) is Some,
{
    if let Ok((next, events)) = sources::complete(m, scan, grace, at_ms, event_ids) {
        ledger::lemma_find_first(m.sources, ledger::has_source_id(scan.source_id));
        let at = m.source_at(scan.source_id)->Some_0;
        if let Some(grace) = grace {
            sources::lemma_miss_all_keeps_sources(
                m,
                scan,
                grace,
                at_ms,
                m.source_records.filter(sources::is_missing(scan)),
                event_ids,
            );
        }
        lemma_source_place(m, next, scan.source_id, at);
    }
}

/// A fingerprint that differs from the last one at its location starts counting anew and must be
/// hashed.
pub proof fn law_changed_fingerprint_starts_over(
    m: LedgerView,
    scan: ScanView,
    location: LocationView,
    fingerprint: SourceFingerprint,
)
    requires
        ledger::find_first(m.observations, sources::seen_at(scan.source_id, location)) matches Some(
            at,
        ) ==> m.observations[at].fingerprint != fingerprint,
    ensures
        sources::look(m, scan, location, fingerprint).1 matches Ok(seen)
            ==> seen.unchanged_observations == 1 && seen.needs_hash,
{
}

/// A lease goes only to a delivery whose record has no earlier version that still waits for an
/// outcome, neither before the lease is granted nor behind it.
pub proof fn law_lease_respects_record_order(
    m: LedgerView,
    subscription_id: SubscriptionId,
    now_ms: i64,
    duration_ms: u64,
    token: LeaseToken,
)
    ensures
        leases::lease(m, subscription_id, now_ms, duration_ms, token) matches Ok(
            (next, Some(made)),
        ) ==> leases::in_record_order(m, made) && leases::in_record_order(next, made),
{
    if let Ok((next, Some(made))) = leases::lease(
        m,
        subscription_id,
        now_ms,
        duration_ms,
        token,
    ) {
        let s = m.subscription_at(subscription_id)->Some_0;
        let policy = m.subscriptions[s].retry_policy;
        let queue = leases::sweep(m.deliveries, subscription_id, policy, now_ms);
        let at = leases::next_candidate(queue, subscription_id, now_ms)->Some_0;
        assert(leases::is_next(queue, subscription_id, now_ms, at));
        assert forall|k: int|
            0 <= k < m.deliveries.len() && (#[trigger] m.deliveries[k]).subscription_id
                == made.subscription_id && m.deliveries[k].record_id == made.record_id
                && m.deliveries[k].record_version
                < made.record_version implies crate::delivery::state_advances(
            m.deliveries[k].state,
        ) && next.deliveries[k] == m.deliveries[k] by {
            assert(!leases::holds_back(queue[k], queue[at]));
        }
        assert forall|k: int|
            0 <= k < next.deliveries.len() && (#[trigger] next.deliveries[k]).subscription_id
                == made.subscription_id && next.deliveries[k].record_id == made.record_id
                && next.deliveries[k].record_version
                < made.record_version implies crate::delivery::state_advances(
            next.deliveries[k].state,
        ) by {
            assert(consistency::same_entry(next.deliveries[k], m.deliveries[k]));
        }
    }
}

/// A dead letter or a blocked delivery stays an ordering barrier: no later version of its record is
/// leased while it stands.
pub proof fn law_dead_letter_is_a_barrier(
    m: LedgerView,
    subscription_id: SubscriptionId,
    now_ms: i64,
    duration_ms: u64,
    token: LeaseToken,
    prior: int,
)
    requires
        0 <= prior < m.deliveries.len(),
        m.deliveries[prior].subscription_id == subscription_id,
        m.deliveries[prior].state == DeliveryState::DeadLettered || m.deliveries[prior].state
            == DeliveryState::Blocked,
    ensures
        leases::lease(m, subscription_id, now_ms, duration_ms, token) matches Ok(
            (next, Some(made)),
        ) ==> !(made.record_id == m.deliveries[prior].record_id && made.record_version
            > m.deliveries[prior].record_version),
{
    law_lease_respects_record_order(m, subscription_id, now_ms, duration_ms, token);
}

/// An event that a subscription cannot handle is never queued for it, and so never silently
/// acknowledged: a move or a deletion that it does not accept enters its ledger blocked, and
/// everything else queued.
pub proof fn law_unaccepted_event_is_blocked(m: LedgerView, at: int, change: ChangeView, s: int)
    requires
        0 <= s < m.subscriptions.len(),
    ensures
        records::change_record(m, at, change) matches Ok((next, event)) ==> {
            let entry = next.deliveries[m.deliveries.len() + s];
            let refused = (change.kind == EventKind::LocationChanged
                && !m.subscriptions[s].accepts_moves) || (change.kind == EventKind::RecordTombstoned
                && !m.subscriptions[s].accepts_tombstones);
            &&& entry.subscription_id == m.subscriptions[s].id
            &&& entry.event_id == event.id
            &&& entry.state == (if refused {
                DeliveryState::Blocked
            } else {
                DeliveryState::Queued
            })
        },
{
}

/// Retries are bounded: a lease that is handed back, or runs out, is queued again only while its
/// delivery has attempts left, and is a dead letter after the last.
pub proof fn law_retries_are_bounded(m: LedgerView, held: LeaseView, now_ms: i64, k: int)
    requires
        m.subscription_at(held.subscription_id) is Some,
        0 <= k < m.deliveries.len(),
    ensures
        ({
            let s = m.subscription_at(held.subscription_id)->Some_0;
            let policy = m.subscriptions[s].retry_policy;
            let before = m.deliveries[k];
            let swept = leases::sweep(m.deliveries, held.subscription_id, policy, now_ms)[k];
            &&& ledger::find_first(m.deliveries, leases::is_held(held, now_ms)) == Some(k)
                && leases::retry(m, held, now_ms) is Ok ==> leases::retry(
                m,
                held,
                now_ms,
            )->Ok_0.deliveries[k].state == (if before.attempts >= policy.max_attempts {
                DeliveryState::DeadLettered
            } else {
                DeliveryState::Queued
            })
            &&& leases::expired(before, held.subscription_id, now_ms) ==> swept.state == (
            if before.attempts >= policy.max_attempts {
                DeliveryState::DeadLettered
            } else {
                DeliveryState::Queued
            })
        }),
{
}

/// A redelivery is the same delivery: leasing changes no delivery's number, event or record.
pub proof fn law_redelivery_keeps_its_event(
    m: LedgerView,
    subscription_id: SubscriptionId,
    now_ms: i64,
    duration_ms: u64,
    token: LeaseToken,
)
    ensures
        leases::lease(m, subscription_id, now_ms, duration_ms, token) matches Ok((next, made))
            ==> {
            &&& next.deliveries.len() == m.deliveries.len()
            &&& forall|k: int|
                0 <= k < m.deliveries.len() ==> consistency::same_entry(
                    #[trigger] next.deliveries[k],
                    m.deliveries[k],
                )
            &&& made matches Some(lease) ==> exists|k: int|
                0 <= k < m.deliveries.len() && (#[trigger] m.deliveries[k]).id == lease.delivery_id
                    && m.deliveries[k].event_id == lease.event_id && m.deliveries[k].record_version
                    == lease.record_version
        },
{
    if let Ok((next, made)) = leases::lease(m, subscription_id, now_ms, duration_ms, token) {
        let s = m.subscription_at(subscription_id)->Some_0;
        if m.subscriptions[s].enabled {
            let policy = m.subscriptions[s].retry_policy;
            let queue = leases::sweep(m.deliveries, subscription_id, policy, now_ms);
            if let Some(lease) = made {
                let at = leases::next_candidate(queue, subscription_id, now_ms)->Some_0;
                assert(leases::is_next(queue, subscription_id, now_ms, at));
                assert(m.deliveries[at].id == lease.delivery_id);
            }
        }
    }
}

/// A lease that is granted is held: the delivery stands leased under the granted token until the
/// lease expires.
pub proof fn law_granted_lease_is_held(
    m: LedgerView,
    subscription_id: SubscriptionId,
    now_ms: i64,
    duration_ms: u64,
    token: LeaseToken,
)
    requires
        m.wf(),
    ensures
        leases::lease(m, subscription_id, now_ms, duration_ms, token) matches Ok(
            (next, Some(made)),
        ) ==> {
            &&& made.token == token
            &&& made.expires_at_ms == now_ms + duration_ms
            &&& forall|then_ms: i64|
                then_ms < made.expires_at_ms ==> ledger::find_first(
                    next.deliveries,
                    #[trigger] leases::is_held(made, then_ms),
                ) is Some
        },
{
    ledger::lemma_find_first(m.subscriptions, ledger::has_subscription_id(subscription_id));
    if let Ok((next, Some(made))) = leases::lease(
        m,
        subscription_id,
        now_ms,
        duration_ms,
        token,
    ) {
        let s = m.subscription_at(subscription_id)->Some_0;
        let policy = m.subscriptions[s].retry_policy;
        let queue = leases::sweep(m.deliveries, subscription_id, policy, now_ms);
        let at = leases::next_candidate(queue, subscription_id, now_ms)->Some_0;
        assert(leases::is_next(queue, subscription_id, now_ms, at));
        assert forall|then_ms: i64| then_ms < made.expires_at_ms implies ledger::find_first(
            next.deliveries,
            #[trigger] leases::is_held(made, then_ms),
        ) is Some by {
            let accepts = leases::is_held(made, then_ms);
            assert(accepts(next.deliveries[at]));
            ledger::lemma_find_first(next.deliveries, accepts);
        }
    }
}

/// An expired lease has no power: whatever its holder asks is refused as stale.
pub proof fn law_expired_lease_is_powerless(m: LedgerView, held: LeaseView, now_ms: i64, at: int)
    requires
        m.wf(),
        0 <= at < m.deliveries.len(),
        m.deliveries[at].id == held.delivery_id,
        m.deliveries[at].lease_expires_at_ms matches Some(expires) ==> expires <= now_ms,
    ensures
        forall|outcome: DeliveryOutcome, reason: Option<Seq<char>>|
            (#[trigger] leases::settle(m, held, outcome, now_ms, reason)) == Err::<
                LedgerView,
                DeliveryErrorView,
            >(DeliveryErrorView::StaleLease),
        leases::retry(m, held, now_ms) is Err,
        forall|reason: Seq<char>|
            (#[trigger] leases::block(m, held, now_ms, reason)) == Err::<
                LedgerView,
                DeliveryErrorView,
            >(DeliveryErrorView::StaleLease),
{
    let accepts = leases::is_held(held, now_ms);
    assert(ledger::delivery_ok(m.deliveries[at]));
    assert forall|k: int| 0 <= k < m.deliveries.len() implies !accepts(
        #[trigger] m.deliveries[k],
    ) by {
        if k < at {
            assert(m.deliveries[k].id < m.deliveries[at].id);
        } else if at < k {
            assert(m.deliveries[at].id < m.deliveries[k].id);
        }
    }
    ledger::lemma_not_found(m.deliveries, accepts);
}

/// A lease is settled once: behind its settlement it is stale, whatever the outcome.
pub proof fn law_settled_once(
    m: LedgerView,
    held: LeaseView,
    outcome: DeliveryOutcome,
    at_ms: i64,
    reason: Option<Seq<char>>,
    then_ms: i64,
)
    requires
        m.wf(),
    ensures
        leases::settle(m, held, outcome, at_ms, reason) matches Ok(next) ==> forall|
            second: DeliveryOutcome,
            why: Option<Seq<char>>,
        |
            (#[trigger] leases::settle(next, held, second, then_ms, why)) == Err::<
                LedgerView,
                DeliveryErrorView,
            >(DeliveryErrorView::StaleLease),
{
    if let Ok(next) = leases::settle(m, held, outcome, at_ms, reason) {
        let accepts = leases::is_held(held, at_ms);
        ledger::lemma_find_first(m.deliveries, accepts);
        let at = ledger::find_first(m.deliveries, accepts)->Some_0;
        assert(accepts(m.deliveries[at]));
        let again = leases::is_held(held, then_ms);
        assert forall|k: int| 0 <= k < next.deliveries.len() implies !again(
            #[trigger] next.deliveries[k],
        ) by {
            if k < at {
                assert(m.deliveries[k].id < m.deliveries[at].id);
            } else if at < k {
                assert(m.deliveries[at].id < m.deliveries[k].id);
            }
        }
        ledger::lemma_not_found(next.deliveries, again);
    }
}

/// A paused subscription leases nothing and loses nothing.
pub proof fn law_pause_keeps_the_queue(
    m: LedgerView,
    subscription_id: SubscriptionId,
    now_ms: i64,
    duration_ms: u64,
    token: LeaseToken,
)
    ensures
        leases::set_enabled(m, subscription_id, false) matches Ok(paused) ==> {
            &&& paused.deliveries == m.deliveries
            &&& paused.subscriptions.len() == m.subscriptions.len()
            &&& forall|j: int|
                0 <= j < m.subscriptions.len() && m.subscription_at(subscription_id) != Some(j)
                    ==> #[trigger] paused.subscriptions[j] == m.subscriptions[j]
            &&& leases::lease(paused, subscription_id, now_ms, duration_ms, token) matches Ok(
                (next, made),
            ) ==> made is None && next == paused
        },
{
    ledger::lemma_find_first(m.subscriptions, ledger::has_subscription_id(subscription_id));
    if let Ok(paused) = leases::set_enabled(m, subscription_id, false) {
        let s = m.subscription_at(subscription_id)->Some_0;
        let accepts = ledger::has_subscription_id(subscription_id);
        assert(accepts(m.subscriptions[s]));
        assert forall|j: int| 0 <= j < s implies !accepts(#[trigger] paused.subscriptions[j]) by {
            assert(!accepts(m.subscriptions[j]));
        }
        ledger::lemma_found(paused.subscriptions, accepts, s);
    }
}

/// Pausing and resuming a subscription gives the catalog back.
pub proof fn law_resume_undoes_pause(m: LedgerView, subscription_id: SubscriptionId)
    requires
        m.subscription_at(subscription_id) matches Some(s) && m.subscriptions[s].enabled,
    ensures
        leases::set_enabled(m, subscription_id, false) matches Ok(paused) && leases::set_enabled(
            paused,
            subscription_id,
            true,
        ) == Ok::<LedgerView, DeliveryErrorView>(m),
{
    ledger::lemma_find_first(m.subscriptions, ledger::has_subscription_id(subscription_id));
    let s = m.subscription_at(subscription_id)->Some_0;
    let paused = leases::set_enabled(m, subscription_id, false)->Ok_0;
    let accepts = ledger::has_subscription_id(subscription_id);
    assert(accepts(m.subscriptions[s]));
    assert forall|j: int| 0 <= j < s implies !accepts(#[trigger] paused.subscriptions[j]) by {
        assert(!accepts(m.subscriptions[j]));
    }
    ledger::lemma_found(paused.subscriptions, accepts, s);
    let back = leases::set_enabled(paused, subscription_id, true)->Ok_0;
    assert(back.subscriptions =~= m.subscriptions);
}

} // verus!
