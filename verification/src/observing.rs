//! What an observation leaves behind, and when an operation is refused.
use crate::catalog::{RegistrationView, ScanView, SourceFingerprint, MAX_STORED};
use crate::delivery::{
    ConfigView, DeliveryErrorView, DeliveryState, LeaseToken, LeaseView, SubscriptionId,
    SubscriptionMode,
};
use crate::domain::{EventId, EventView, IdentityView, LocationView, RecordState, RevisionView};
use crate::leases;
use crate::ledger;
use crate::ledger::{LedgerView, RecordView, RevisionRowView};
use crate::records;
use crate::records::{ChangeView, ObservationIds};
use crate::sources;
use crate::subscriptions;
use vstd::prelude::*;

verus! {

/// A record is changed exactly where it can take another version, the event's identity is free, and the event
/// and its deliveries can still be numbered.
pub proof fn law_change_is_refused_for_a_reason(m: LedgerView, at: int, change: ChangeView)
    requires
        0 <= at < m.records.len(),
    ensures
        records::change_record(m, at, change) is Ok <==> {
            &&& m.records[at].record_version < MAX_STORED
            &&& forall|i: int|
                0 <= i < m.events.len() ==> (#[trigger] m.events[i]).id != change.event_id
            &&& forall|i: int|
                0 <= i < m.deliveries.len() ==> (#[trigger] m.deliveries[i]).event_id
                    != change.event_id
            &&& (m.events.len() > 0 ==> m.events.last().sequence < MAX_STORED)
            &&& (if m.deliveries.len() > 0 {
                m.deliveries.last().id as int
            } else {
                0
            }) + m.subscriptions.len() <= MAX_STORED
        },
{
}

proof fn lemma_observed(
    m: LedgerView,
    at: int,
    location: LocationView,
    revision: RevisionView,
    at_ms: i64,
    ids: ObservationIds,
)
    requires
        0 <= at < m.records.len(),
    ensures
        records::observe_at(m, at, location, revision, at_ms, ids) matches Ok((next, events)) ==> {
            let record = m.records[at];
            &&& next.records.len() == m.records.len()
            &&& next.records[at].id == record.id
            &&& next.records[at].identity == record.identity
            &&& next.records[at].created_at_ms == record.created_at_ms
            &&& next.records[at].updated_at_ms == (if events.len() > 0 {
                at_ms
            } else {
                record.updated_at_ms
            })
            &&& next.records[at].record_version == record.record_version + events.len()
            &&& forall|i: int|
                0 <= i < m.records.len() && i != at ==> #[trigger] next.records[i] == m.records[i]
            &&& record.state == RecordState::Tombstoned ==> events.len() > 0
                && events[0].revision_id == record.current_revision_id
            &&& events.len() <= 2
            &&& events.len() > 0 ==> events[0].id == ids.first_event
            &&& events.len() > 1 ==> events[1].id == ids.second_event
            &&& forall|i: int|
                0 <= i < events.len() ==> (#[trigger] events[i]).sequence == m.latest_sequence() + 1
                    + i && events[i].record_id == record.id
            &&& next.events == m.events + events
            &&& next == (LedgerView {
                records: next.records,
                revisions: next.revisions,
                events: next.events,
                deliveries: next.deliveries,
                ..m
            })
            &&& next.deliveries.len() == m.deliveries.len() + events.len() * m.subscriptions.len()
            &&& forall|d: int|
                0 <= d < m.deliveries.len() ==> #[trigger] next.deliveries[d] == m.deliveries[d]
            &&& next.revisions == (match ledger::find_first(
                m.revisions,
                ledger::has_revision(record.id, revision),
            ) {
                Some(v) => m.revisions.update(
                    v,
                    RevisionRowView { last_observed_at_ms: at_ms, ..m.revisions[v] },
                ),
                None => m.revisions.push(
                    RevisionRowView {
                        id: ids.revision_id,
                        record_id: record.id,
                        revision,
                        first_observed_at_ms: at_ms,
                        last_observed_at_ms: at_ms,
                    },
                ),
            })
        },
{
    if let Ok((next, events)) = records::observe_at(m, at, location, revision, at_ms, ids) {
        assert(next.events =~= m.events + events);
        let n = m.subscriptions.len() as int;
        assert(0 * n == 0 && 1 * n == n && 2 * n == n + n);
    }
}

/// An observation of a known record changes that record alone: it keeps its identity and the time of its making,
/// takes one version for each event, and is dated where there is any. The events bear the drawn identities in
/// order and follow the archive's last; one that restores a record tells the revision that it was deleted with.
pub proof fn law_observation_changes_one_record(
    m: LedgerView,
    identity: IdentityView,
    location: LocationView,
    revision: RevisionView,
    at_ms: i64,
    ids: ObservationIds,
    r: int,
)
    requires
        0 <= r < m.records.len(),
        m.records[r].identity == identity,
        forall|i: int| 0 <= i < r ==> (#[trigger] m.records[i]).identity != identity,
    ensures
        records::observe(m, identity, location, revision, at_ms, ids) matches Ok((next, events))
            ==> {
            let before = m.records[r];
            let after = next.records[r];
            &&& next.records.len() == m.records.len()
            &&& after.id == before.id
            &&& after.identity == identity
            &&& after.created_at_ms == before.created_at_ms
            &&& after.updated_at_ms == (if events.len() > 0 {
                at_ms
            } else {
                before.updated_at_ms
            })
            &&& after.record_version == before.record_version + events.len()
            &&& forall|i: int|
                0 <= i < m.records.len() && i != r ==> #[trigger] next.records[i] == m.records[i]
            &&& before.state == RecordState::Tombstoned ==> events.len() > 0
                && events[0].revision_id == before.current_revision_id
            &&& events.len() > 0 ==> events[0].id == ids.first_event
            &&& events.len() > 1 ==> events[1].id == ids.second_event
            &&& forall|i: int|
                0 <= i < events.len() ==> (#[trigger] events[i]).record_id == before.id
                    && events[i].sequence == (if m.events.len() > 0 {
                    m.events.last().sequence as int
                } else {
                    0
                }) + 1 + i
            &&& next.deliveries.len() == m.deliveries.len() + events.len() * m.subscriptions.len()
            &&& forall|d: int|
                0 <= d < m.deliveries.len() ==> #[trigger] next.deliveries[d] == m.deliveries[d]
            &&& next == (LedgerView {
                records: next.records,
                revisions: next.revisions,
                events: m.events + events,
                deliveries: next.deliveries,
                ..m
            })
        },
{
    lemma_first_record(m, identity, r);
    lemma_observed(m, r, location, revision, at_ms, ids);
}

proof fn lemma_first_record(m: LedgerView, identity: IdentityView, r: int)
    requires
        0 <= r < m.records.len(),
        m.records[r].identity == identity,
        forall|i: int| 0 <= i < r ==> (#[trigger] m.records[i]).identity != identity,
    ensures
        m.record_with(identity) == Some(r),
{
    let accepts = ledger::has_identity(identity);
    assert(ledger::is_first(m.records, accepts, r)) by {
        assert forall|j: int| 0 <= j < r implies !accepts(#[trigger] m.records[j]) by {}
    }
    ledger::lemma_found(m.records, accepts, r);
}

/// An observation notes its revision once: where the record had that revision before, only the time of its last
/// sighting changes; else it is added, under the drawn identity and with that time.
pub proof fn law_revision_is_noted_once(
    m: LedgerView,
    identity: IdentityView,
    location: LocationView,
    revision: RevisionView,
    at_ms: i64,
    ids: ObservationIds,
    r: int,
    v: int,
)
    requires
        0 <= r < m.records.len(),
        m.records[r].identity == identity,
        forall|i: int| 0 <= i < r ==> (#[trigger] m.records[i]).identity != identity,
        0 <= v <= m.revisions.len(),
        forall|i: int|
            0 <= i < v ==> !((#[trigger] m.revisions[i]).record_id == m.records[r].id
                && m.revisions[i].revision == revision),
        v < m.revisions.len() ==> m.revisions[v].record_id == m.records[r].id
            && m.revisions[v].revision == revision,
    ensures
        records::observe(m, identity, location, revision, at_ms, ids) matches Ok((next, events))
            ==> {
            &&& v < m.revisions.len() ==> next.revisions == m.revisions.update(
                v,
                RevisionRowView { last_observed_at_ms: at_ms, ..m.revisions[v] },
            )
            &&& v == m.revisions.len() ==> next.revisions == m.revisions.push(
                RevisionRowView {
                    id: ids.revision_id,
                    record_id: m.records[r].id,
                    revision,
                    first_observed_at_ms: at_ms,
                    last_observed_at_ms: at_ms,
                },
            )
        },
{
    lemma_first_record(m, identity, r);
    lemma_observed(m, r, location, revision, at_ms, ids);
    let accepts = ledger::has_revision(m.records[r].id, revision);
    ledger::lemma_find_first(m.revisions, accepts);
    if v < m.revisions.len() {
        assert(ledger::is_first(m.revisions, accepts, v)) by {
            assert forall|j: int| 0 <= j < v implies !accepts(#[trigger] m.revisions[j]) by {}
        }
        ledger::lemma_found(m.revisions, accepts, v);
    } else if let Some(found) = ledger::find_first(m.revisions, accepts) {
        assert(accepts(m.revisions[found]));
    }
}

/// The first observation of an identity makes its record, active and at its first version, under the drawn
/// identity; the records before it stay as they are.
pub proof fn law_first_observation_makes_the_record(
    m: LedgerView,
    identity: IdentityView,
    location: LocationView,
    revision: RevisionView,
    at_ms: i64,
    ids: ObservationIds,
)
    requires
        forall|i: int| 0 <= i < m.records.len() ==> (#[trigger] m.records[i]).identity != identity,
    ensures
        records::observe(m, identity, location, revision, at_ms, ids) matches Ok((next, events))
            ==> {
            let made = next.records.last();
            &&& next.records.len() == m.records.len() + 1
            &&& forall|i: int|
                0 <= i < m.records.len() ==> #[trigger] next.records[i] == m.records[i]
            &&& made.id == ids.record_id
            &&& made.identity == identity
            &&& made.created_at_ms == at_ms
            &&& made.updated_at_ms == at_ms
            &&& made.record_version == events.len()
            &&& forall|i: int|
                0 <= i < m.records.len() ==> (#[trigger] m.records[i]).id != ids.record_id
        },
{
    ledger::lemma_find_first(m.records, ledger::has_identity(identity));
    if let Some(at) = m.record_with(identity) {
        assert(ledger::has_identity(identity)(m.records[at]));
    }
    let begun = LedgerView {
        records: m.records.push(records::unborn(ids.record_id, identity, location, at_ms)),
        ..m
    };
    lemma_observed(begun, m.records.len() as int, location, revision, at_ms, ids);
    ledger::lemma_find_first(m.records, ledger::has_record_id(ids.record_id));
    if let Ok((next, events)) = records::observe(m, identity, location, revision, at_ms, ids) {
        assert forall|i: int| 0 <= i < m.records.len() implies (#[trigger] m.records[i]).id
            != ids.record_id by {
            assert(!ledger::has_record_id(ids.record_id)(m.records[i]));
        }
        assert forall|i: int| 0 <= i < m.records.len() implies #[trigger] next.records[i]
            == m.records[i] by {
            assert(begun.records[i] == m.records[i]);
        }
    }
}

/// What is current of an identity is its record: where it stands, at which version and in which state, with
/// the bytes that its revision stands for.
pub proof fn law_current_tells_the_record(m: LedgerView, identity: IdentityView, r: int, v: int)
    requires
        0 <= r < m.records.len(),
        m.records[r].identity == identity,
        forall|i: int| 0 <= i < r ==> (#[trigger] m.records[i]).identity != identity,
        0 <= v < m.revisions.len(),
        forall|i: int| 0 <= i < v ==> (#[trigger] m.revisions[i]).id != m.revisions[v].id,
    ensures
        records::current(m, identity) matches Some(now) && {
            &&& now.id == m.records[r].id
            &&& now.identity == identity
            &&& now.location == m.records[r].location
            &&& now.record_version == m.records[r].record_version
            &&& now.state == m.records[r].state
            &&& now.revision_id == m.records[r].current_revision_id
            &&& m.records[r].current_revision_id == Some(m.revisions[v].id) ==> now.revision
                == Some(m.revisions[v].revision)
            &&& m.records[r].current_revision_id is None ==> now.revision is None
        },
{
    lemma_first_record(m, identity, r);
    let accepts = ledger::has_revision_id(m.revisions[v].id);
    assert(ledger::is_first(m.revisions, accepts, v)) by {
        assert forall|j: int| 0 <= j < v implies !accepts(#[trigger] m.revisions[j]) by {}
    }
    ledger::lemma_found(m.revisions, accepts, v);
}

/// Nothing is current of an identity that was never observed.
pub proof fn law_unseen_identity_has_no_record(m: LedgerView, identity: IdentityView)
    ensures
        records::current(m, identity) is None <==> forall|i: int|
            0 <= i < m.records.len() ==> (#[trigger] m.records[i]).identity != identity,
{
    ledger::lemma_find_first(m.records, ledger::has_identity(identity));
    if let Some(at) = m.record_with(identity) {
        assert(ledger::has_identity(identity)(m.records[at]));
    } else {
        assert forall|i: int| 0 <= i < m.records.len() implies (#[trigger] m.records[i]).identity
            != identity by {
            assert(!ledger::has_identity(identity)(m.records[i]));
        }
    }
}

/// A lease needs a duration that is not zero and a known subscription. One that is switched off leases nothing,
/// and stays as it is.
pub proof fn law_lease_is_refused_for_a_reason(
    m: LedgerView,
    subscription_id: SubscriptionId,
    now_ms: i64,
    duration_ms: u64,
    token: LeaseToken,
    s: int,
)
    ensures
        ({
            let leased = leases::lease(m, subscription_id, now_ms, duration_ms, token);
            &&& duration_ms == 0 ==> leased is Err
            &&& now_ms + duration_ms > i64::MAX ==> leased is Err
            &&& 0 < duration_ms <= i64::MAX && now_ms + duration_ms <= i64::MAX && (forall|j: int|
                0 <= j < m.subscriptions.len() ==> (#[trigger] m.subscriptions[j]).id
                    != subscription_id) ==> leased == Err::<(LedgerView, Option<LeaseView>), _>(
                DeliveryErrorView::UnknownSubscription,
            )
            &&& 0 < duration_ms <= i64::MAX && now_ms + duration_ms <= i64::MAX && 0 <= s
                < m.subscriptions.len() && m.subscriptions[s].id == subscription_id && (forall|
                j: int,
            |
                0 <= j < m.subscriptions.len() && (#[trigger] m.subscriptions[j]).id
                    == subscription_id ==> j == s) ==> {
                &&& !m.subscriptions[s].enabled ==> leased == Ok::<_, DeliveryErrorView>(
                    (m, None::<LeaseView>),
                )
                &&& (forall|k: int|
                    0 <= k < m.deliveries.len() ==> (#[trigger] m.deliveries[k]).attempts
                        < u32::MAX && !(m.deliveries[k].subscription_id == subscription_id
                        && m.deliveries[k].state == DeliveryState::Leased
                        && m.deliveries[k].lease_expires_at_ms is Some
                        && m.deliveries[k].lease_expires_at_ms->Some_0 <= now_ms)) ==> leased is Ok
            }
        }),
{
    let accepts = ledger::has_subscription_id(subscription_id);
    ledger::lemma_find_first(m.subscriptions, accepts);
    if let Some(at) = m.subscription_at(subscription_id) {
        assert(accepts(m.subscriptions[at]));
        assert(m.subscriptions[at].id == subscription_id);
        let policy = m.subscriptions[at].retry_policy;
        let queue = leases::sweep(m.deliveries, subscription_id, policy, now_ms);
        assert forall|i: int| 0 <= i < m.deliveries.len() implies (#[trigger] queue[i]).attempts
            == m.deliveries[i].attempts by {}
        if let Some(next) = leases::next_candidate(queue, subscription_id, now_ms) {
            assert(leases::is_next(queue, subscription_id, now_ms, next));
            assert(queue[next].attempts == m.deliveries[next].attempts);
        }
    }
    if 0 <= s < m.subscriptions.len() && m.subscriptions[s].id == subscription_id {
        assert(accepts(m.subscriptions[s]));
    }
}

/// A source keeps the producer and the schema that it was registered with: a scan under any other is refused.
pub proof fn law_source_keeps_its_registration(
    m: LedgerView,
    registration: RegistrationView,
    s: int,
)
    requires
        0 <= s < m.sources.len(),
        m.sources[s].source_id == registration.source_id,
        forall|j: int|
            0 <= j < m.sources.len() && (#[trigger] m.sources[j]).source_id
                == registration.source_id ==> j == s,
    ensures
        sources::begin(m, registration) is Ok <==> m.sources[s].producer_id
            == registration.producer_id && m.sources[s].identity_schema_name
            == registration.identity_schema_name && m.sources[s].identity_schema_version
            == registration.identity_schema_version && m.sources[s].next_generation < MAX_STORED,
{
    let accepts = ledger::has_source_id(registration.source_id);
    ledger::lemma_find_first(m.sources, accepts);
    assert(accepts(m.sources[s]));
    if let Some(at) = m.source_at(registration.source_id) {
        assert(accepts(m.sources[at]));
        assert(m.sources[at].source_id == registration.source_id);
    }
}

/// A source records and marks only what its own producer made; and a record belongs to the source that saw it
/// first.
pub proof fn law_source_sees_only_its_own(
    m: LedgerView,
    scan: ScanView,
    registration: RegistrationView,
    identity: IdentityView,
    location: LocationView,
    revision: RevisionView,
    at_ms: i64,
    ids: ObservationIds,
    r: int,
    k: int,
)
    ensures
        identity.producer_id != registration.producer_id ==> {
            &&& sources::mark_seen(m, scan, registration, identity) is Err
            &&& sources::observe_for(
                m,
                scan,
                registration,
                identity,
                location,
                revision,
                at_ms,
                ids,
            ).0 == m
            &&& sources::observe_for(
                m,
                scan,
                registration,
                identity,
                location,
                revision,
                at_ms,
                ids,
            ).1 is Err
        },
        0 <= k < m.source_records.len() && (forall|j: int|
            0 <= j < m.source_records.len() && (#[trigger] m.source_records[j]).record_id
                == m.source_records[k].record_id ==> j == k) ==> (sources::bind(
            m,
            scan,
            m.source_records[k].record_id,
        ) is Ok <==> m.source_records[k].source_id == scan.source_id),
{
    if 0 <= k < m.source_records.len() {
        let accepts = sources::owns(m.source_records[k].record_id);
        ledger::lemma_find_first(m.source_records, accepts);
        assert(accepts(m.source_records[k]));
        if let Some(at) = ledger::find_first(m.source_records, accepts) {
            assert(accepts(m.source_records[at]));
            assert(m.source_records[at].record_id == m.source_records[k].record_id);
        }
    }
}

/// A fingerprint is noted exactly where its numbers can be stored.
pub proof fn law_fingerprint_can_be_stored(fingerprint: SourceFingerprint)
    ensures
        sources::fingerprint_refusal(fingerprint) is None <==> fingerprint.byte_length
            <= MAX_STORED && (fingerprint.device matches Some(device) ==> device <= MAX_STORED) && (
        fingerprint.inode matches Some(inode) ==> inode <= MAX_STORED),
{
}

proof fn lemma_filter_len<T>(items: Seq<T>, accepts: spec_fn(T) -> bool)
    ensures
        items.filter(accepts).len() <= items.len(),
    decreases items.len(),
{
    reveal(Seq::filter);
    if items.len() > 0 {
        lemma_filter_len(items.drop_last(), accepts);
    }
}

proof fn lemma_inserted_len(sorted: Seq<RecordView>, row: RecordView)
    ensures
        subscriptions::insert_by_id(sorted, row).len() == sorted.len() + 1,
    decreases sorted.len(),
{
    if sorted.len() > 0 {
        lemma_inserted_len(sorted.drop_last(), row);
    }
}

proof fn lemma_active_len(rows: Seq<RecordView>)
    ensures
        subscriptions::active_by_id(rows).len() <= rows.len(),
    decreases rows.len(),
{
    if rows.len() > 0 {
        lemma_active_len(rows.drop_last());
        lemma_inserted_len(subscriptions::active_by_id(rows.drop_last()), rows.last());
    }
}

/// A subscription is made where its waits and its start can be stored, its identity is free, the identities that
/// were drawn for a rebuild differ, and its deliveries can still be numbered; and never where its waits or its start
/// cannot be stored or its identity is taken.
pub proof fn law_subscription_is_refused_for_a_reason(
    m: LedgerView,
    config: ConfigView,
    mode: SubscriptionMode,
    at_ms: i64,
    id: SubscriptionId,
    event_ids: Seq<EventId>,
)
    ensures
        ({
            let made = subscriptions::subscribe(m, config, mode, at_ms, id, event_ids);
            let storable = config.retry_policy.initial_backoff_ms <= MAX_STORED
                && config.retry_policy.max_backoff_ms <= MAX_STORED && (mode
                == SubscriptionMode::ReplayEvents ==> config.replay_after_sequence <= MAX_STORED);
            let free = forall|s: int|
                0 <= s < m.subscriptions.len() ==> (#[trigger] m.subscriptions[s]).id != id;
            &&& made is Ok ==> storable && free
            &&& storable && free && (mode == SubscriptionMode::RebuildCurrent ==> event_ids.len()
                >= m.records.len() && forall|i: int, j: int|
                0 <= i < j < event_ids.len() ==> #[trigger] event_ids[i] != #[trigger] event_ids[j])
                && (if m.deliveries.len() > 0 {
                m.deliveries.last().id as int
            } else {
                0
            }) + m.events.len() + m.records.len() <= MAX_STORED ==> made is Ok
        }),
{
    let accepts = ledger::has_subscription_id(id);
    ledger::lemma_find_first(m.subscriptions, accepts);
    if let Some(at) = m.subscription_at(id) {
        assert(accepts(m.subscriptions[at]));
        assert(m.subscriptions[at].id == id);
    } else {
        assert forall|s: int| 0 <= s < m.subscriptions.len() implies (
        #[trigger] m.subscriptions[s]).id != id by {
            assert(!accepts(m.subscriptions[s]));
        }
    }
    lemma_filter_len::<EventView>(m.events, records::is_after(config.replay_after_sequence));
    lemma_active_len(m.records);
}

} // verus!
