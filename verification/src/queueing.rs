//! What becomes of a queue entry: how it comes about, is leased, settled, handed back and counted.
use crate::delivery;
use crate::delivery::{
    ConfigView, DeliveryErrorView, DeliveryState, LeaseToken, LeaseView, SubscriptionId,
    SubscriptionMode,
};
use crate::catalog::{ScanView, TombstoneGrace};
use crate::domain::{
    DeliveryOutcome, EventId, EventKind, EventView, IdentityView, LocationView, RecordState,
    RevisionView,
};
use crate::history;
use crate::history::Step;
use crate::leases;
use crate::ledger;
use crate::ledger::{DeliveryView, LedgerView, RecordView, SourceRecordView, SubscriptionView};
use crate::records;
use crate::records::{ChangeView, ObservationIds};
use crate::sources;
use crate::subscriptions;
use vstd::prelude::*;

verus! {

/// A change, row by row: the record stands as the change says, at its next version; one event says so,
/// numbered behind the last; and every subscription, paused or not, gets one entry that carries that
/// event whole, its bytes and its place, whatever its kind, and that nobody has tried yet. Other
/// records and earlier entries stay as they were.
pub proof fn law_queue_entry_carries_its_event(m: LedgerView, at: int, change: ChangeView, s: int)
    requires
        0 <= at < m.records.len(),
    ensures
        records::change_record(m, at, change) matches Ok((next, event)) ==> {
            &&& event.id == change.event_id
            &&& event.record_id == m.records[at].id
            &&& event.record_version == m.records[at].record_version + 1
            &&& event.kind == change.kind
            &&& event.revision_id == change.revision_id
            &&& event.location == Some(change.location)
            &&& event.committed_at_ms == change.at_ms
            &&& m.events.len() > 0 ==> event.sequence == m.events[m.events.len() - 1].sequence + 1
            &&& m.events.len() == 0 ==> event.sequence == 1
            &&& next.events == m.events.push(event)
            &&& next.records.len() == m.records.len()
            &&& next.records[at].id == m.records[at].id
            &&& next.records[at].identity == m.records[at].identity
            &&& next.records[at].created_at_ms == m.records[at].created_at_ms
            &&& next.records[at].location == change.location
            &&& next.records[at].state == change.state
            &&& next.records[at].current_revision_id == change.revision_id
            &&& next.records[at].record_version == event.record_version
            &&& next.records[at].updated_at_ms == change.at_ms
            &&& forall|i: int|
                0 <= i < m.records.len() && i != at ==> #[trigger] next.records[i] == m.records[i]
            &&& next.deliveries.len() == m.deliveries.len() + m.subscriptions.len()
            &&& forall|k: int|
                0 <= k < m.deliveries.len() ==> #[trigger] next.deliveries[k] == m.deliveries[k]
            &&& 0 <= s < m.subscriptions.len() ==> {
                let entry = next.deliveries[m.deliveries.len() + s];
                &&& entry.subscription_id == m.subscriptions[s].id
                &&& entry.event_id == event.id
                &&& entry.event_sequence == Some(event.sequence)
                &&& entry.record_id == event.record_id
                &&& entry.record_version == event.record_version
                &&& entry.kind == event.kind
                &&& entry.revision_id == event.revision_id
                &&& entry.location == event.location
                &&& entry.created_at_ms == event.committed_at_ms
                &&& !entry.is_snapshot
                &&& entry.attempts == 0
                &&& entry.lease_token is None
                &&& entry.lease_expires_at_ms is None
                &&& entry.not_before_ms == 0
                &&& entry.settled_at_ms is None
                &&& entry.settlement_reason is None
            }
            &&& next.revisions == m.revisions
            &&& next.subscriptions == m.subscriptions
            &&& next.sources == m.sources
            &&& next.source_records == m.source_records
            &&& next.candidates == m.candidates
        },
{
}

/// Deleting a record that is active deletes that one, where it lies and with its bytes, and says so in
/// one event; it is refused for no other reason than that a number or an identifier is used up.
pub proof fn law_deletion_is_of_one_record(
    m: LedgerView,
    identity: IdentityView,
    at_ms: i64,
    event_id: EventId,
    at: int,
)
    requires
        0 <= at < m.records.len(),
        m.records[at].identity == identity,
        m.records[at].state == RecordState::Active,
        forall|a: int, b: int|
            0 <= a < b < m.records.len() ==> (#[trigger] m.records[a]).identity != (
            #[trigger] m.records[b]).identity,
    ensures
        records::tombstone(m, identity, at_ms, event_id) matches Ok((next, made)) ==> {
            &&& made matches Some(event)
            &&& event.kind == EventKind::RecordTombstoned
            &&& event.id == event_id
            &&& event.record_id == m.records[at].id
            &&& event.record_version == m.records[at].record_version + 1
            &&& event.revision_id == m.records[at].current_revision_id
            &&& event.location == Some(m.records[at].location)
            &&& event.committed_at_ms == at_ms
            &&& next.events == m.events.push(event)
            &&& next.records == m.records.update(
                at,
                (RecordView {
                    state: RecordState::Tombstoned,
                    record_version: event.record_version,
                    updated_at_ms: at_ms,
                    ..m.records[at]
                }),
            )
            &&& next.revisions == m.revisions
        },
{
    let accepts = ledger::has_identity(identity);
    ledger::lemma_find_first(m.records, accepts);
    assert(accepts(m.records[at]));
    let found = m.record_with(identity)->Some_0;
    assert(found == at) by {
        if found < at {
            assert(m.records[found].identity != m.records[at].identity);
        } else if at < found {
            assert(m.records[at].identity != m.records[found].identity);
        }
    }
}

/// A replay queues exactly the events behind its cursor: every event with a greater number has one
/// entry, in archive order, that carries it whole; no other event has one.
pub proof fn law_replay_queues_exactly_the_later_events(
    m: LedgerView,
    config: ConfigView,
    at_ms: i64,
    id: SubscriptionId,
    event_ids: Seq<EventId>,
)
    requires
        ledger::events_ascend(m.events),
    ensures
        subscriptions::subscribe(
            m,
            config,
            SubscriptionMode::ReplayEvents,
            at_ms,
            id,
            event_ids,
        ) matches Ok(next) ==> {
            let old_count = m.deliveries.len() as int;
            &&& forall|j: int|
                #![trigger m.events[j]]
                0 <= j < m.events.len() && m.events[j].sequence > config.replay_after_sequence
                    ==> exists|k: int|
                    old_count <= k < next.deliveries.len() && carries(
                        #[trigger] next.deliveries[k],
                        m.events[j],
                    )
            &&& forall|k: int|
                #![trigger next.deliveries[k]]
                old_count <= k < next.deliveries.len() ==> {
                    &&& next.deliveries[k].subscription_id == id
                    &&& !next.deliveries[k].is_snapshot
                    &&& exists|j: int|
                        0 <= j < m.events.len() && (#[trigger] m.events[j]).sequence
                            > config.replay_after_sequence && carries(
                            next.deliveries[k],
                            m.events[j],
                        )
                }
            &&& forall|a: int, b: int|
                old_count <= a < b < next.deliveries.len() ==> (
                #[trigger] next.deliveries[a]).event_sequence->Some_0 < (
                #[trigger] next.deliveries[b]).event_sequence->Some_0
            &&& forall|k: int|
                0 <= k < old_count ==> #[trigger] next.deliveries[k] == m.deliveries[k]
        },
{
    let after = config.replay_after_sequence;
    let behind = records::events_behind(m.events, after);
    records::law_events_behind_are_the_later_ones(m.events, after);
    if let Ok(next) = subscriptions::subscribe(
        m,
        config,
        SubscriptionMode::ReplayEvents,
        at_ms,
        id,
        event_ids,
    ) {
        let old_count = m.deliveries.len() as int;
        assert forall|j: int|
            0 <= j < m.events.len() && (#[trigger] m.events[j]).sequence > after implies exists|
            k: int,
        |
            old_count <= k < next.deliveries.len() && carries(
                #[trigger] next.deliveries[k],
                m.events[j],
            ) by {
            assert(behind.contains(m.events[j]));
            let b = choose|b: int| 0 <= b < behind.len() && behind[b] == m.events[j];
            assert(carries(next.deliveries[old_count + b], m.events[j]));
        }
        assert forall|k: int| old_count <= k < next.deliveries.len() implies {
            &&& (#[trigger] next.deliveries[k]).subscription_id == id
            &&& !next.deliveries[k].is_snapshot
            &&& exists|j: int|
                0 <= j < m.events.len() && (#[trigger] m.events[j]).sequence > after && carries(
                    next.deliveries[k],
                    m.events[j],
                )
        } by {
            let e = behind[k - old_count];
            assert(behind.contains(e));
            assert(m.events.contains(e));
            let j = choose|j: int| 0 <= j < m.events.len() && m.events[j] == e;
            assert(carries(next.deliveries[k], m.events[j]));
        }
        assert forall|a: int, b: int| old_count <= a < b < next.deliveries.len() implies (
        #[trigger] next.deliveries[a]).event_sequence->Some_0 < (
        #[trigger] next.deliveries[b]).event_sequence->Some_0 by {
            assert(behind[a - old_count].sequence < behind[b - old_count].sequence);
        }
    }
}

/// Whether a queue entry carries an event whole.
pub open spec fn carries(entry: DeliveryView, event: EventView) -> bool {
    &&& entry.event_id == event.id
    &&& entry.event_sequence == Some(event.sequence)
    &&& entry.record_id == event.record_id
    &&& entry.record_version == event.record_version
    &&& entry.kind == event.kind
    &&& entry.revision_id == event.revision_id
    &&& entry.location == event.location
}

/// A rebuilt epoch queues exactly the records that are active: each has one entry, the snapshot of its
/// current version, bytes and place; no deleted record has one.
pub proof fn law_rebuild_queues_exactly_the_active_records(
    m: LedgerView,
    config: ConfigView,
    at_ms: i64,
    id: SubscriptionId,
    event_ids: Seq<EventId>,
)
    ensures
        subscriptions::subscribe(
            m,
            config,
            SubscriptionMode::RebuildCurrent,
            at_ms,
            id,
            event_ids,
        ) matches Ok(next) ==> {
            let old_count = m.deliveries.len() as int;
            &&& forall|i: int|
                #![trigger m.records[i]]
                0 <= i < m.records.len() && m.records[i].state == RecordState::Active ==> exists|
                    k: int,
                |
                    old_count <= k < next.deliveries.len() && snapshot_of(
                        #[trigger] next.deliveries[k],
                        m.records[i],
                    )
            &&& forall|k: int|
                #![trigger next.deliveries[k]]
                old_count <= k < next.deliveries.len() ==> {
                    &&& next.deliveries[k].subscription_id == id
                    &&& next.deliveries[k].event_id == event_ids[k - old_count]
                    &&& next.deliveries[k].state == DeliveryState::Queued
                    &&& exists|i: int|
                        0 <= i < m.records.len() && (#[trigger] m.records[i]).state
                            == RecordState::Active && snapshot_of(next.deliveries[k], m.records[i])
                }
            &&& forall|a: int, b: int|
                old_count <= a < b < next.deliveries.len() ==> (
                #[trigger] next.deliveries[a]).record_id.id.value <= (
                #[trigger] next.deliveries[b]).record_id.id.value
            &&& forall|k: int|
                0 <= k < old_count ==> #[trigger] next.deliveries[k] == m.deliveries[k]
        },
{
    let active = subscriptions::active_by_id(m.records);
    lemma_active_rows(m.records);
    subscriptions::law_rebuild_covers_active_records(m.records);
    if let Ok(next) = subscriptions::subscribe(
        m,
        config,
        SubscriptionMode::RebuildCurrent,
        at_ms,
        id,
        event_ids,
    ) {
        let old_count = m.deliveries.len() as int;
        assert forall|i: int|
            0 <= i < m.records.len() && (#[trigger] m.records[i]).state
                == RecordState::Active implies exists|k: int|
            old_count <= k < next.deliveries.len() && snapshot_of(
                #[trigger] next.deliveries[k],
                m.records[i],
            ) by {
            assert(active.contains(m.records[i]));
            let a = choose|a: int| 0 <= a < active.len() && active[a] == m.records[i];
            assert(snapshot_of(next.deliveries[old_count + a], m.records[i]));
        }
        assert forall|k: int| old_count <= k < next.deliveries.len() implies {
            &&& (#[trigger] next.deliveries[k]).subscription_id == id
            &&& next.deliveries[k].event_id == event_ids[k - old_count]
            &&& next.deliveries[k].state == DeliveryState::Queued
            &&& exists|i: int|
                0 <= i < m.records.len() && (#[trigger] m.records[i]).state == RecordState::Active
                    && snapshot_of(next.deliveries[k], m.records[i])
        } by {
            let row = active[k - old_count];
            assert(active.contains(row));
            assert(m.records.contains(row) && row.state == RecordState::Active);
            let i = choose|i: int| 0 <= i < m.records.len() && m.records[i] == row;
            assert(snapshot_of(next.deliveries[k], m.records[i]));
        }
        assert forall|a: int, b: int| old_count <= a < b < next.deliveries.len() implies (
        #[trigger] next.deliveries[a]).record_id.id.value <= (
        #[trigger] next.deliveries[b]).record_id.id.value by {
            assert(subscriptions::id_number(active[a - old_count]) <= subscriptions::id_number(
                active[b - old_count],
            ));
        }
    }
}

/// Whether a queue entry is the snapshot of a record as it stands.
pub open spec fn snapshot_of(entry: DeliveryView, record: RecordView) -> bool {
    &&& entry.is_snapshot
    &&& entry.event_sequence is None
    &&& entry.record_id == record.id
    &&& entry.record_version == record.record_version
    &&& entry.kind == EventKind::RevisionCommitted
    &&& entry.revision_id == record.current_revision_id
    &&& entry.location == Some(record.location)
}

proof fn lemma_inserted(sorted: Seq<RecordView>, row: RecordView, other: RecordView)
    ensures
        subscriptions::insert_by_id(sorted, row).contains(other) <==> sorted.contains(other)
            || other == row,
    decreases sorted.len(),
{
    let after = subscriptions::insert_by_id(sorted, row);
    if sorted.len() == 0 || subscriptions::id_number(sorted.last()) <= subscriptions::id_number(
        row,
    ) {
        assert(after[sorted.len() as int] == row);
        if sorted.contains(other) {
            let i = choose|i: int| 0 <= i < sorted.len() && sorted[i] == other;
            assert(after[i] == other);
        }
        if after.contains(other) {
            let i = choose|i: int| 0 <= i < after.len() && after[i] == other;
            if i < sorted.len() {
                assert(sorted[i] == other);
            }
        }
    } else {
        let front = sorted.drop_last();
        lemma_inserted(front, row, other);
        let inner = subscriptions::insert_by_id(front, row);
        assert(after == inner.push(sorted.last()));
        assert(after[inner.len() as int] == sorted.last());
        if inner.contains(other) {
            let i = choose|i: int| 0 <= i < inner.len() && inner[i] == other;
            assert(after[i] == other);
        }
        if sorted.contains(other) {
            let i = choose|i: int| 0 <= i < sorted.len() && sorted[i] == other;
            if i < front.len() {
                assert(front[i] == other);
            }
        }
        if after.contains(other) {
            let i = choose|i: int| 0 <= i < after.len() && after[i] == other;
            if i < inner.len() {
                assert(inner[i] == other);
            }
            if front.contains(other) {
                let j = choose|j: int| 0 <= j < front.len() && front[j] == other;
                assert(sorted[j] == other);
            }
            assert(sorted[sorted.len() - 1] == sorted.last());
        }
    }
}

proof fn lemma_active_rows(rows: Seq<RecordView>)
    ensures
        forall|row: RecordView|
            #[trigger] subscriptions::active_by_id(rows).contains(row) <==> rows.contains(row)
                && row.state == RecordState::Active,
    decreases rows.len(),
{
    if rows.len() > 0 {
        let front = rows.drop_last();
        lemma_active_rows(front);
        assert forall|row: RecordView|
            #[trigger] subscriptions::active_by_id(rows).contains(row) <==> rows.contains(row)
                && row.state == RecordState::Active by {
            let inner = subscriptions::active_by_id(front);
            lemma_inserted(inner, rows.last(), row);
            assert(inner.contains(row) <==> front.contains(row) && row.state
                == RecordState::Active);
            assert(rows[rows.len() - 1] == rows.last());
            if front.contains(row) {
                let i = choose|i: int| 0 <= i < front.len() && front[i] == row;
                assert(rows[i] == row);
            }
            if rows.contains(row) {
                let i = choose|i: int| 0 <= i < rows.len() && rows[i] == row;
                if i < front.len() {
                    assert(front[i] == row);
                }
            }
        }
    }
}

/// A new subscription is enabled and has what its configuration asks for; the others stay as they are.
pub proof fn law_subscription_has_what_it_asked_for(
    m: LedgerView,
    config: ConfigView,
    mode: SubscriptionMode,
    at_ms: i64,
    id: SubscriptionId,
    event_ids: Seq<EventId>,
)
    ensures
        subscriptions::subscribe(m, config, mode, at_ms, id, event_ids) matches Ok(next) ==> {
            let made = next.subscriptions.last();
            &&& next.subscriptions.len() == m.subscriptions.len() + 1
            &&& forall|s: int|
                0 <= s < m.subscriptions.len() ==> #[trigger] next.subscriptions[s]
                    == m.subscriptions[s]
            &&& forall|s: int|
                0 <= s < m.subscriptions.len() ==> (#[trigger] m.subscriptions[s]).id != id
            &&& made.id == id
            &&& made.consumer_id == config.consumer_id
            &&& made.mode == mode
            &&& made.max_active_leases == config.max_active_leases
            &&& made.accepts_moves == config.accepts_moves
            &&& made.accepts_tombstones == config.accepts_tombstones
            &&& made.retry_policy == config.retry_policy
            &&& made.created_at_ms == at_ms
            &&& made.enabled
        },
{
    ledger::lemma_find_first(m.subscriptions, ledger::has_subscription_id(id));
    assert forall|s: int|
        0 <= s < m.subscriptions.len() && m.subscription_at(id) is None implies (
    #[trigger] m.subscriptions[s]).id != id by {
        assert(!ledger::has_subscription_id(id)(m.subscriptions[s]));
    }
}

/// Whether an entry is due: it waits in its subscription's queue, its time has come, and every earlier
/// version of its record is acknowledged, superseded or ignored by policy.
pub open spec fn is_due(
    rows: Seq<DeliveryView>,
    subscription_id: SubscriptionId,
    now_ms: i64,
    k: int,
) -> bool {
    &&& 0 <= k < rows.len()
    &&& rows[k].subscription_id == subscription_id
    &&& rows[k].state == DeliveryState::Queued
    &&& rows[k].not_before_ms <= now_ms
    &&& forall|p: int|
        0 <= p < rows.len() && (#[trigger] rows[p]).subscription_id == subscription_id
            && rows[p].record_id == rows[k].record_id && rows[p].record_version
            < rows[k].record_version ==> {
            ||| rows[p].state == DeliveryState::Acknowledged
            ||| rows[p].state == DeliveryState::Superseded
            ||| rows[p].state == DeliveryState::IgnoredByPolicy
        }
}

/// Whether a lease of this subscription has run out by now.
pub open spec fn ran_out(d: DeliveryView, subscription_id: SubscriptionId, now_ms: i64) -> bool {
    &&& d.subscription_id == subscription_id
    &&& d.state == DeliveryState::Leased
    &&& d.lease_expires_at_ms is Some
    &&& d.lease_expires_at_ms->Some_0 <= now_ms
}

proof fn lemma_due_is_eligible(
    rows: Seq<DeliveryView>,
    subscription_id: SubscriptionId,
    now_ms: i64,
    k: int,
)
    ensures
        is_due(rows, subscription_id, now_ms, k) <==> leases::eligible(
            rows,
            subscription_id,
            now_ms,
            k,
        ),
{
    if is_due(rows, subscription_id, now_ms, k) {
        assert forall|p: int| 0 <= p < rows.len() implies !leases::holds_back(
            #[trigger] rows[p],
            rows[k],
        ) by {}
    }
    if leases::eligible(rows, subscription_id, now_ms, k) {
        assert forall|p: int|
            0 <= p < rows.len() && (#[trigger] rows[p]).subscription_id == subscription_id
                && rows[p].record_id == rows[k].record_id && rows[p].record_version
                < rows[k].record_version implies rows[p].state == DeliveryState::Acknowledged
            || rows[p].state == DeliveryState::Superseded || rows[p].state
            == DeliveryState::IgnoredByPolicy by {
            assert(!leases::holds_back(rows[p], rows[k]));
        }
    }
}

/// Where something is due, something is the first of what is due.
proof fn lemma_first_exists(
    rows: Seq<DeliveryView>,
    due: spec_fn(int) -> bool,
    k: int,
    bound: int,
) -> (at: int)
    requires
        forall|a: int, b: int|
            0 <= a < b < rows.len() ==> (#[trigger] rows[a]).id < (#[trigger] rows[b]).id,
        forall|j: int| #[trigger] due(j) ==> 0 <= j < rows.len(),
        due(k),
        k < bound <= rows.len(),
    ensures
        due(at),
        at < bound,
        forall|j: int| #[trigger]
            due(j) && j < bound && j != at ==> leases::precedes(rows[at], rows[j]),
    decreases bound,
{
    let last = bound - 1;
    if exists|j: int| #[trigger] due(j) && j < last {
        let other = choose|j: int| #[trigger] due(j) && j < last;
        let at = lemma_first_exists(rows, due, other, last);
        if due(last) && !leases::precedes(rows[at], rows[last]) {
            assert(rows[at].id < rows[last].id);
            leases::lemma_precedes_total(rows[at], rows[last]);
            assert forall|j: int| #[trigger]
                due(j) && j < bound && j != last implies leases::precedes(
                rows[last],
                rows[j],
            ) by {
                if j != at {
                    leases::lemma_precedes_transitive(rows[last], rows[at], rows[j]);
                }
            }
            last
        } else {
            at
        }
    } else {
        k
    }
}

/// What a lease comes to, in terms of the queue behind the sweep of leases that ran out.
proof fn lemma_lease_shape(
    m: LedgerView,
    subscription_id: SubscriptionId,
    now_ms: i64,
    duration_ms: u64,
    token: LeaseToken,
    s: int,
) -> (k: int)
    requires
        0 <= s < m.subscriptions.len(),
        m.subscriptions[s].id == subscription_id,
        forall|j: int|
            0 <= j < m.subscriptions.len() && (#[trigger] m.subscriptions[j]).id == subscription_id
                ==> j == s,
    ensures
        leases::lease(m, subscription_id, now_ms, duration_ms, token) matches Ok((next, made)) ==> {
            let policy = m.subscriptions[s].retry_policy;
            let queue = leases::sweep(m.deliveries, subscription_id, policy, now_ms);
            &&& next == (LedgerView { deliveries: next.deliveries, ..m })
            &&& !m.subscriptions[s].enabled ==> made is None && next == m
            &&& m.subscriptions[s].enabled ==> {
                &&& leases::sweep_possible(m.deliveries, subscription_id, policy, now_ms)
                &&& match made {
                    None => {
                        &&& next.deliveries == queue
                        &&& leases::count_in(queue, subscription_id, DeliveryState::Leased)
                            >= m.subscriptions[s].max_active_leases || leases::next_candidate(
                            queue,
                            subscription_id,
                            now_ms,
                        ) is None
                    },
                    Some(held) => {
                        &&& leases::is_next(queue, subscription_id, now_ms, k)
                        &&& 0 <= k < m.deliveries.len()
                        &&& now_ms + duration_ms <= i64::MAX
                        &&& queue[k].attempts < u32::MAX
                        &&& next.deliveries == queue.update(
                            k,
                            leases::leased(queue[k], token, (now_ms + duration_ms) as i64),
                        )
                        &&& held == leases::lease_of(
                            m,
                            queue[k],
                            token,
                            (now_ms + duration_ms) as i64,
                        )
                    },
                }
            }
        },
{
    let accepts = ledger::has_subscription_id(subscription_id);
    ledger::lemma_find_first(m.subscriptions, accepts);
    assert(accepts(m.subscriptions[s]));
    assert(m.subscription_at(subscription_id) == Some(s));
    let policy = m.subscriptions[s].retry_policy;
    let queue = leases::sweep(m.deliveries, subscription_id, policy, now_ms);
    match leases::next_candidate(queue, subscription_id, now_ms) {
        Some(k) => k,
        None => 0,
    }
}

/// A lease gives its holder one entry of the subscription: its event, record, version, kind and place
/// as they were queued, and one more attempt, under the token and until the time that were asked for.
/// The entry was waiting and its time had come, or its last lease had run out with attempts left; and
/// every earlier version of its record is acknowledged, superseded or ignored by policy.
pub proof fn law_lease_gives_out_one_entry(
    m: LedgerView,
    subscription_id: SubscriptionId,
    now_ms: i64,
    duration_ms: u64,
    token: LeaseToken,
    s: int,
) -> (k: int)
    requires
        0 <= s < m.subscriptions.len(),
        m.subscriptions[s].id == subscription_id,
        forall|j: int|
            0 <= j < m.subscriptions.len() && (#[trigger] m.subscriptions[j]).id == subscription_id
                ==> j == s,
    ensures
        leases::lease(m, subscription_id, now_ms, duration_ms, token) matches Ok(
            (next, Some(held)),
        ) ==> {
            let before = m.deliveries[k];
            let after = next.deliveries[k];
            &&& m.subscriptions[s].enabled
            &&& 0 <= k < m.deliveries.len()
            &&& before.id == held.delivery_id
            &&& before.subscription_id == subscription_id
            &&& (before.state == DeliveryState::Queued && before.not_before_ms <= now_ms)
                || (ran_out(before, subscription_id, now_ms) && before.attempts
                < m.subscriptions[s].retry_policy.max_attempts)
            &&& held.subscription_id == subscription_id
            &&& held.event_id == before.event_id
            &&& held.event_sequence == before.event_sequence
            &&& held.record_id == before.record_id
            &&& held.record_version == before.record_version
            &&& held.kind == before.kind
            &&& held.revision_id == before.revision_id
            &&& held.location == before.location
            &&& held.is_snapshot == before.is_snapshot
            &&& held.attempt == before.attempts + 1
            &&& held.token == token
            &&& held.expires_at_ms == now_ms + duration_ms
            &&& after.id == before.id
            &&& after.subscription_id == subscription_id
            &&& after.state == DeliveryState::Leased
            &&& after.attempts == held.attempt
            &&& after.lease_token == Some(token)
            &&& after.lease_expires_at_ms == Some(held.expires_at_ms)
            &&& after.event_id == before.event_id
            &&& after.event_sequence == before.event_sequence
            &&& after.record_id == before.record_id
            &&& after.record_version == before.record_version
            &&& after.kind == before.kind
            &&& after.revision_id == before.revision_id
            &&& after.location == before.location
            &&& after.is_snapshot == before.is_snapshot
            &&& after.created_at_ms == before.created_at_ms
            &&& forall|p: int|
                0 <= p < m.deliveries.len() && (#[trigger] m.deliveries[p]).subscription_id
                    == subscription_id && m.deliveries[p].record_id == held.record_id
                    && m.deliveries[p].record_version < held.record_version
                    ==> m.deliveries[p].state == DeliveryState::Acknowledged
                    || m.deliveries[p].state == DeliveryState::Superseded || m.deliveries[p].state
                    == DeliveryState::IgnoredByPolicy
        },
{
    let k = lemma_lease_shape(m, subscription_id, now_ms, duration_ms, token, s);
    let policy = m.subscriptions[s].retry_policy;
    let queue = leases::sweep(m.deliveries, subscription_id, policy, now_ms);
    if let Ok((next, Some(held))) = leases::lease(
        m,
        subscription_id,
        now_ms,
        duration_ms,
        token,
    ) {
        assert forall|p: int|
            0 <= p < m.deliveries.len() && (#[trigger] m.deliveries[p]).subscription_id
                == subscription_id && m.deliveries[p].record_id == held.record_id
                && m.deliveries[p].record_version < held.record_version implies m.deliveries[p].state
            == DeliveryState::Acknowledged || m.deliveries[p].state == DeliveryState::Superseded
            || m.deliveries[p].state == DeliveryState::IgnoredByPolicy by {
            assert(!leases::holds_back(queue[p], queue[k]));
        }
    }
    k
}

/// A lease carries the bytes of its revision, whatever the kind of its event: those of the revision row
/// that its entry names.
pub proof fn law_lease_carries_the_bytes_of_its_revision(
    m: LedgerView,
    subscription_id: SubscriptionId,
    now_ms: i64,
    duration_ms: u64,
    token: LeaseToken,
    r: int,
)
    requires
        0 <= r < m.revisions.len(),
        forall|a: int, b: int|
            0 <= a < b < m.revisions.len() ==> (#[trigger] m.revisions[a]).id != (
            #[trigger] m.revisions[b]).id,
    ensures
        leases::lease(m, subscription_id, now_ms, duration_ms, token) matches Ok(
            (next, Some(held)),
        ) ==> {
            &&& held.revision_id is None ==> held.revision is None
            &&& held.revision_id == Some(m.revisions[r].id) ==> held.revision == Some(
                m.revisions[r].revision,
            )
        },
{
    let accepts = ledger::has_revision_id(m.revisions[r].id);
    ledger::lemma_find_first(m.revisions, accepts);
    assert(accepts(m.revisions[r]));
    let found = ledger::find_first(m.revisions, accepts)->Some_0;
    if found < r {
        assert(m.revisions[found].id != m.revisions[r].id);
    } else if r < found {
        assert(m.revisions[r].id != m.revisions[found].id);
    }
}

/// Leasing changes no entry but the one that is leased and those of the subscription whose lease ran
/// out. The latter are given up after their last attempt; else they go back to the queue and wait out
/// the backoff of their last attempt.
pub proof fn law_leasing_sweeps_leases_that_ran_out(
    m: LedgerView,
    subscription_id: SubscriptionId,
    now_ms: i64,
    duration_ms: u64,
    token: LeaseToken,
    s: int,
    j: int,
)
    requires
        m.wf(),
        0 <= s < m.subscriptions.len(),
        m.subscriptions[s].id == subscription_id,
        forall|j: int|
            0 <= j < m.subscriptions.len() && (#[trigger] m.subscriptions[j]).id == subscription_id
                ==> j == s,
        0 <= j < m.deliveries.len(),
    ensures
        leases::lease(m, subscription_id, now_ms, duration_ms, token) matches Ok((next, made)) ==> {
            let policy = m.subscriptions[s].retry_policy;
            let before = m.deliveries[j];
            let after = next.deliveries[j];
            let gone = m.subscriptions[s].enabled && ran_out(before, subscription_id, now_ms);
            &&& next == (LedgerView { deliveries: next.deliveries, ..m })
            &&& next.deliveries.len() == m.deliveries.len()
            &&& !m.subscriptions[s].enabled ==> made is None && next == m
            &&& made is None || before.id != made->Some_0.delivery_id ==> {
                &&& !gone ==> after == before
                &&& gone ==> after == (DeliveryView {
                    state: after.state,
                    lease_token: None,
                    lease_expires_at_ms: None,
                    not_before_ms: after.not_before_ms,
                    settled_at_ms: after.settled_at_ms,
                    settlement_reason: after.settlement_reason,
                    ..before
                })
                &&& gone && before.attempts >= policy.max_attempts ==> after.state
                    == DeliveryState::DeadLettered && after.settled_at_ms == Some(now_ms)
                    && after.settlement_reason is Some && after.not_before_ms
                    == before.not_before_ms
                &&& gone && before.attempts < policy.max_attempts ==> after.state
                    == DeliveryState::Queued && after.not_before_ms - now_ms
                    == delivery::backoff_ms(policy, before.attempts) && after.settled_at_ms is None
                    && after.settlement_reason is None
            }
        },
{
    let k = lemma_lease_shape(m, subscription_id, now_ms, duration_ms, token, s);
    let policy = m.subscriptions[s].retry_policy;
    let queue = leases::sweep(m.deliveries, subscription_id, policy, now_ms);
    if let Ok((next, made)) = leases::lease(m, subscription_id, now_ms, duration_ms, token) {
        if m.subscriptions[s].enabled {
            assert(queue[j] == leases::swept(m.deliveries[j], subscription_id, policy, now_ms));
            if made is Some && j != k {
                assert(next.deliveries[j] == queue[j]);
            }
            if leases::expired(m.deliveries[j], subscription_id, now_ms) {
                delivery::law_next_attempt_waits_the_backoff(
                    policy,
                    m.deliveries[j].attempts,
                    now_ms,
                );
            }
        }
    }
}

/// A lease is of the first entry in archive order among those that are due: by event number, snapshots
/// behind events, and among snapshots by the order in which they were queued.
pub proof fn law_lease_is_first_in_archive_order(
    m: LedgerView,
    subscription_id: SubscriptionId,
    now_ms: i64,
    duration_ms: u64,
    token: LeaseToken,
    s: int,
    j: int,
)
    requires
        0 <= s < m.subscriptions.len(),
        m.subscriptions[s].id == subscription_id,
        forall|j: int|
            0 <= j < m.subscriptions.len() && (#[trigger] m.subscriptions[j]).id == subscription_id
                ==> j == s,
    ensures
        leases::lease(m, subscription_id, now_ms, duration_ms, token) matches Ok(
            (next, Some(held)),
        ) ==> is_due(next.deliveries, subscription_id, now_ms, j) ==> match (
            held.event_sequence,
            next.deliveries[j].event_sequence,
        ) {
            (Some(x), Some(y)) => x <= y,
            (Some(x), None) => true,
            (None, Some(y)) => false,
            (None, None) => held.delivery_id < next.deliveries[j].id,
        },
{
    let k = lemma_lease_shape(m, subscription_id, now_ms, duration_ms, token, s);
    let policy = m.subscriptions[s].retry_policy;
    let queue = leases::sweep(m.deliveries, subscription_id, policy, now_ms);
    if let Ok((next, Some(held))) = leases::lease(
        m,
        subscription_id,
        now_ms,
        duration_ms,
        token,
    ) {
        if is_due(next.deliveries, subscription_id, now_ms, j) {
            assert(j != k);
            assert(queue[j] == next.deliveries[j]);
            assert(is_due(queue, subscription_id, now_ms, j)) by {
                assert forall|p: int|
                    0 <= p < queue.len() && (#[trigger] queue[p]).subscription_id
                        == subscription_id && queue[p].record_id == queue[j].record_id
                        && queue[p].record_version < queue[j].record_version implies queue[p].state
                    == DeliveryState::Acknowledged || queue[p].state == DeliveryState::Superseded
                    || queue[p].state == DeliveryState::IgnoredByPolicy by {
                    let there = next.deliveries[p];
                    assert(there.subscription_id == subscription_id);
                }
            }
            lemma_due_is_eligible(queue, subscription_id, now_ms, j);
            assert(leases::precedes(queue[k], queue[j]));
        }
    }
}

/// An enabled subscription leases nothing only where it has all the leases it may, or nothing is due.
pub proof fn law_what_is_due_is_leased(
    m: LedgerView,
    subscription_id: SubscriptionId,
    now_ms: i64,
    duration_ms: u64,
    token: LeaseToken,
    s: int,
    k: int,
)
    requires
        m.wf(),
        0 <= s < m.subscriptions.len(),
        m.subscriptions[s].id == subscription_id,
        m.subscriptions[s].enabled,
        forall|j: int|
            0 <= j < m.subscriptions.len() && (#[trigger] m.subscriptions[j]).id == subscription_id
                ==> j == s,
    ensures
        leases::lease(m, subscription_id, now_ms, duration_ms, token) matches Ok((next, None))
            ==> is_due(next.deliveries, subscription_id, now_ms, k)
            ==> next.deliveries.filter(
            |d: DeliveryView|
                d.subscription_id == subscription_id && d.state == DeliveryState::Leased,
        ).len() >= m.subscriptions[s].max_active_leases,
{
    let _ = lemma_lease_shape(m, subscription_id, now_ms, duration_ms, token, s);
    let policy = m.subscriptions[s].retry_policy;
    let queue = leases::sweep(m.deliveries, subscription_id, policy, now_ms);
    let counts = |d: DeliveryView|
        d.subscription_id == subscription_id && d.state == DeliveryState::Leased;
    assert(counts =~= leases::in_state(subscription_id, DeliveryState::Leased));
    if is_due(queue, subscription_id, now_ms, k) {
        let due = |j: int| leases::eligible(queue, subscription_id, now_ms, j);
        lemma_due_is_eligible(queue, subscription_id, now_ms, k);
        assert forall|a: int, b: int| 0 <= a < b < queue.len() implies (#[trigger] queue[a]).id < (
        #[trigger] queue[b]).id by {
            assert(m.deliveries[a].id < m.deliveries[b].id);
        }
        assert(due(k));
        let at = lemma_first_exists(queue, due, k, queue.len() as int);
        assert(leases::is_next(queue, subscription_id, now_ms, at)) by {
            assert forall|j: int|
                #[trigger] leases::eligible(queue, subscription_id, now_ms, j) && j
                    != at implies leases::precedes(queue[at], queue[j]) by {
                assert(due(j));
            }
        }
    }
}

/// Whether a row stands leased under this lease's number, subscription and token beyond now.
spec fn held_row(d: DeliveryView, held: LeaseView, now_ms: i64) -> bool {
    &&& d.id == held.delivery_id
    &&& d.subscription_id == held.subscription_id
    &&& d.state == DeliveryState::Leased
    &&& d.lease_token == Some(held.token)
    &&& d.lease_expires_at_ms is Some
    &&& d.lease_expires_at_ms->Some_0 > now_ms
}

proof fn lemma_held(
    m: LedgerView,
    held: LeaseView,
    now_ms: i64,
    next: spec_fn(DeliveryView) -> DeliveryView,
    k: int,
)
    requires
        m.wf(),
        0 <= k < m.deliveries.len(),
        m.deliveries[k].id == held.delivery_id,
    ensures
        held_row(m.deliveries[k], held, now_ms) ==> leases::on_held(m, held, now_ms, next) == Ok::<
            LedgerView,
            DeliveryErrorView,
        >(
            LedgerView {
                deliveries: m.deliveries.update(k, next(m.deliveries[k])),
                ..m
            },
        ),
        !held_row(m.deliveries[k], held, now_ms) ==> leases::on_held(m, held, now_ms, next)
            == Err::<LedgerView, DeliveryErrorView>(DeliveryErrorView::StaleLease),
{
    let accepts = leases::is_held(held, now_ms);
    ledger::lemma_find_first(m.deliveries, accepts);
    assert(ledger::delivery_ok(m.deliveries[k]));
    if let Some(at) = ledger::find_first(m.deliveries, accepts) {
        if at < k {
            assert(m.deliveries[at].id < m.deliveries[k].id);
        } else if k < at {
            assert(m.deliveries[k].id < m.deliveries[at].id);
        }
    }
    if held_row(m.deliveries[k], held, now_ms) {
        assert(accepts(m.deliveries[k]));
    }
}

/// Settling a lease ends that delivery with the outcome asked for, the time and the reason, and frees
/// it; nothing else changes. It is granted exactly where the delivery stands leased under this token
/// and the lease has not run out.
pub proof fn law_settling_ends_one_delivery(
    m: LedgerView,
    held: LeaseView,
    outcome: DeliveryOutcome,
    at_ms: i64,
    reason: Option<Seq<char>>,
    k: int,
)
    requires
        m.wf(),
        0 <= k < m.deliveries.len(),
        m.deliveries[k].id == held.delivery_id,
    ensures
        ({
            let d = m.deliveries[k];
            let granted = d.subscription_id == held.subscription_id && d.state
                == DeliveryState::Leased && d.lease_token == Some(held.token)
                && d.lease_expires_at_ms is Some && d.lease_expires_at_ms->Some_0 > at_ms;
            let result = leases::settle(m, held, outcome, at_ms, reason);
            &&& granted <==> result is Ok
            &&& result matches Ok(next) ==> next == (LedgerView {
                deliveries: m.deliveries.update(
                    k,
                    (DeliveryView {
                        state: match outcome {
                            DeliveryOutcome::Acknowledged => DeliveryState::Acknowledged,
                            DeliveryOutcome::Superseded => DeliveryState::Superseded,
                            DeliveryOutcome::IgnoredByPolicy => DeliveryState::IgnoredByPolicy,
                            DeliveryOutcome::DeadLettered => DeliveryState::DeadLettered,
                        },
                        lease_token: None,
                        lease_expires_at_ms: None,
                        settled_at_ms: Some(at_ms),
                        settlement_reason: reason,
                        ..d
                    }),
                ),
                ..m
            })
        }),
{
    lemma_held(m, held, at_ms, leases::settled(outcome, at_ms, reason), k);
}

/// Handing a lease back puts the delivery in the queue again, to wait out the backoff of its attempt,
/// or gives it up after the last attempt; blocking it takes it out of the queue with the reason. Both
/// free it, change nothing else, and are granted exactly where the lease is held.
pub proof fn law_handing_back_waits_or_gives_up(
    m: LedgerView,
    held: LeaseView,
    now_ms: i64,
    reason: Seq<char>,
    k: int,
    s: int,
)
    requires
        m.wf(),
        0 <= k < m.deliveries.len(),
        m.deliveries[k].id == held.delivery_id,
        0 <= s < m.subscriptions.len(),
        m.subscriptions[s].id == held.subscription_id,
        forall|j: int|
            0 <= j < m.subscriptions.len() && (#[trigger] m.subscriptions[j]).id
                == held.subscription_id ==> j == s,
    ensures
        ({
            let d = m.deliveries[k];
            let policy = m.subscriptions[s].retry_policy;
            let granted = d.subscription_id == held.subscription_id && d.state
                == DeliveryState::Leased && d.lease_token == Some(held.token)
                && d.lease_expires_at_ms is Some && d.lease_expires_at_ms->Some_0 > now_ms;
            let wait = delivery::backoff_ms(policy, held.attempt);
            let retried = leases::retry(m, held, now_ms);
            let blocked = leases::block(m, held, now_ms, reason);
            &&& retried is Ok <==> granted && now_ms + wait <= i64::MAX && wait <= i64::MAX
            &&& retried matches Ok(next) ==> {
                let after = next.deliveries[k];
                &&& next == (LedgerView { deliveries: m.deliveries.update(k, after), ..m })
                &&& after == (DeliveryView {
                    state: after.state,
                    lease_token: None,
                    lease_expires_at_ms: None,
                    not_before_ms: after.not_before_ms,
                    settled_at_ms: after.settled_at_ms,
                    settlement_reason: after.settlement_reason,
                    ..d
                })
                &&& d.attempts >= policy.max_attempts ==> after.state == DeliveryState::DeadLettered
                    && after.settled_at_ms == Some(now_ms) && after.settlement_reason is Some
                    && after.not_before_ms == d.not_before_ms
                &&& d.attempts < policy.max_attempts ==> after.state == DeliveryState::Queued
                    && after.not_before_ms - now_ms == wait && after.settled_at_ms is None
                    && after.settlement_reason is None
            }
            &&& blocked is Ok <==> granted
            &&& blocked matches Ok(next) ==> next == (LedgerView {
                deliveries: m.deliveries.update(
                    k,
                    (DeliveryView {
                        state: DeliveryState::Blocked,
                        lease_token: None,
                        lease_expires_at_ms: None,
                        settled_at_ms: None,
                        settlement_reason: Some(reason),
                        ..d
                    }),
                ),
                ..m
            })
        }),
{
    let accepts = ledger::has_subscription_id(held.subscription_id);
    ledger::lemma_find_first(m.subscriptions, accepts);
    assert(accepts(m.subscriptions[s]));
    let policy = m.subscriptions[s].retry_policy;
    lemma_held(m, held, now_ms, leases::blocked(reason), k);
    if let Some(time) = delivery::not_before(policy, held.attempt, now_ms) {
        lemma_held(m, held, now_ms, leases::retried(policy, now_ms, time), k);
    }
}

/// How many deliveries of a subscription stand in a state: one more delivery counts where it is of this
/// subscription and in this state, and not else.
pub proof fn law_delivery_counts_once(
    rows: Seq<DeliveryView>,
    d: DeliveryView,
    subscription_id: SubscriptionId,
    state: DeliveryState,
)
    ensures
        leases::count_in(Seq::empty(), subscription_id, state) == 0,
        leases::count_in(rows.push(d), subscription_id, state) == leases::count_in(
            rows,
            subscription_id,
            state,
        ) + (if d.subscription_id == subscription_id && d.state == state {
            1nat
        } else {
            0nat
        }),
{
    let accepts = leases::in_state(subscription_id, state);
    rows.lemma_filter_push(d, accepts);
    assert(Seq::<DeliveryView>::empty().filter(accepts) =~= Seq::empty());
}

/// Pausing and resuming set one switch of one subscription.
pub proof fn law_switch_is_of_one_subscription(
    m: LedgerView,
    subscription_id: SubscriptionId,
    enabled: bool,
    s: int,
)
    requires
        0 <= s < m.subscriptions.len(),
        m.subscriptions[s].id == subscription_id,
        forall|j: int|
            0 <= j < m.subscriptions.len() && (#[trigger] m.subscriptions[j]).id == subscription_id
                ==> j == s,
    ensures
        leases::set_enabled(m, subscription_id, enabled) == Ok::<LedgerView, DeliveryErrorView>(
            LedgerView {
                subscriptions: m.subscriptions.update(
                    s,
                    (SubscriptionView { enabled, ..m.subscriptions[s] }),
                ),
                ..m
            },
        ),
{
    let accepts = ledger::has_subscription_id(subscription_id);
    ledger::lemma_find_first(m.subscriptions, accepts);
    assert(accepts(m.subscriptions[s]));
}

/// Whether every entry that is no snapshot carries one of these events.
pub open spec fn all_carried(deliveries: Seq<DeliveryView>, events: Seq<EventView>) -> bool {
    forall|k: int|
        0 <= k < deliveries.len() && !(#[trigger] deliveries[k]).is_snapshot ==> exists|j: int|
            0 <= j < events.len() && carries(deliveries[k], #[trigger] events[j])
}

/// Entries that keep what they carry stay carried, whatever events are added.
proof fn lemma_still_carried(
    deliveries: Seq<DeliveryView>,
    events: Seq<EventView>,
    after: Seq<DeliveryView>,
    later: Seq<EventView>,
)
    requires
        all_carried(deliveries, events),
        deliveries.len() == after.len(),
        forall|k: int|
            0 <= k < after.len() ==> {
                &&& (#[trigger] after[k]).is_snapshot == deliveries[k].is_snapshot
                &&& after[k].event_id == deliveries[k].event_id
                &&& after[k].event_sequence == deliveries[k].event_sequence
                &&& after[k].record_id == deliveries[k].record_id
                &&& after[k].record_version == deliveries[k].record_version
                &&& after[k].kind == deliveries[k].kind
                &&& after[k].revision_id == deliveries[k].revision_id
                &&& after[k].location == deliveries[k].location
            },
        events.len() <= later.len(),
        forall|j: int| 0 <= j < events.len() ==> #[trigger] later[j] == events[j],
    ensures
        all_carried(after, later),
{
    assert forall|k: int| 0 <= k < after.len() && !(#[trigger] after[k]).is_snapshot implies exists|
        j: int,
    |
        0 <= j < later.len() && carries(after[k], #[trigger] later[j]) by {
        assert(!deliveries[k].is_snapshot);
        let j = choose|j: int|
            0 <= j < events.len() && carries(deliveries[k], #[trigger] events[j]);
        assert(carries(after[k], later[j]));
    }
}

proof fn lemma_changed_carried(m: LedgerView, at: int, change: ChangeView)
    requires
        all_carried(m.deliveries, m.events),
    ensures
        all_carried(
            records::changed(m, at, change).deliveries,
            records::changed(m, at, change).events,
        ),
{
    let next = records::changed(m, at, change);
    let event = records::change_event(m, at, change);
    lemma_still_carried(m.deliveries, m.events, m.deliveries, next.events);
    assert forall|k: int|
        0 <= k < next.deliveries.len() && !(
        #[trigger] next.deliveries[k]).is_snapshot implies exists|j: int|
        0 <= j < next.events.len() && carries(next.deliveries[k], #[trigger] next.events[j]) by {
        if k < m.deliveries.len() {
            assert(next.deliveries[k] == m.deliveries[k]);
        } else {
            assert(next.events[m.events.len() as int] == event);
            assert(carries(next.deliveries[k], next.events[m.events.len() as int]));
        }
    }
}

proof fn lemma_observe_carried(
    m: LedgerView,
    identity: IdentityView,
    location: LocationView,
    revision: RevisionView,
    at_ms: i64,
    ids: ObservationIds,
)
    requires
        all_carried(m.deliveries, m.events),
    ensures
        records::observe(m, identity, location, revision, at_ms, ids) matches Ok((next, events))
            ==> all_carried(next.deliveries, next.events),
{
    match m.record_with(identity) {
        Some(at) => {
            lemma_observe_at_carried(m, at, location, revision, at_ms, ids);
        },
        None => {
            let with = LedgerView {
                records: m.records.push(
                    records::unborn(ids.record_id, identity, location, at_ms),
                ),
                ..m
            };
            lemma_observe_at_carried(
                with,
                m.records.len() as int,
                location,
                revision,
                at_ms,
                ids,
            );
        },
    }
}

proof fn lemma_observe_at_carried(
    m: LedgerView,
    at: int,
    location: LocationView,
    revision: RevisionView,
    at_ms: i64,
    ids: ObservationIds,
)
    requires
        all_carried(m.deliveries, m.events),
    ensures
        records::observe_at(m, at, location, revision, at_ms, ids) matches Ok((next, events))
            ==> all_carried(next.deliveries, next.events),
{
    let record = m.records[at];
    let restoration = ChangeView {
        event_id: ids.first_event,
        kind: EventKind::RecordRestored,
        revision_id: record.current_revision_id,
        location,
        state: RecordState::Active,
        at_ms,
    };
    let was_deleted = record.state == RecordState::Tombstoned;
    let m1 = if was_deleted {
        records::changed(m, at, restoration)
    } else {
        m
    };
    lemma_changed_carried(m, at, restoration);
    if let Ok((m2, revision_id)) = records::know_revision(
        m1,
        record.id,
        revision,
        at_ms,
        ids.revision_id,
    ) {
        let event_id = if was_deleted {
            ids.second_event
        } else {
            ids.first_event
        };
        lemma_changed_carried(
            m2,
            at,
            ChangeView {
                event_id,
                kind: EventKind::RevisionCommitted,
                revision_id: Some(revision_id),
                location,
                state: RecordState::Active,
                at_ms,
            },
        );
        lemma_changed_carried(
            m2,
            at,
            ChangeView {
                event_id,
                kind: EventKind::LocationChanged,
                revision_id: record.current_revision_id,
                location,
                state: RecordState::Active,
                at_ms,
            },
        );
    }
}

proof fn lemma_miss_all_carried(
    m: LedgerView,
    scan: ScanView,
    grace: TombstoneGrace,
    at_ms: i64,
    missing: Seq<SourceRecordView>,
    event_ids: Seq<EventId>,
)
    requires
        all_carried(m.deliveries, m.events),
    ensures
        sources::miss_all(m, scan, grace, at_ms, missing, event_ids) matches Ok((next, events))
            ==> all_carried(next.deliveries, next.events),
    decreases missing.len(),
{
    if missing.len() > 0 {
        lemma_miss_all_carried(m, scan, grace, at_ms, missing.drop_last(), event_ids);
        if let Ok((before, made)) = sources::miss_all(
            m,
            scan,
            grace,
            at_ms,
            missing.drop_last(),
            event_ids,
        ) {
            let id = missing.last().record_id;
            let counted = sources::with_candidate(
                before,
                sources::missed(before, scan, id, at_ms),
            );
            if let Some(at) = counted.record_at(id) {
                lemma_changed_carried(
                    counted,
                    at,
                    records::deletion(
                        counted.records[at],
                        at_ms,
                        event_ids[missing.len() - 1],
                    ),
                );
            }
        }
    }
}

proof fn lemma_subscribe_carried(
    m: LedgerView,
    config: ConfigView,
    mode: SubscriptionMode,
    at_ms: i64,
    id: SubscriptionId,
    event_ids: Seq<EventId>,
)
    requires
        all_carried(m.deliveries, m.events),
    ensures
        subscriptions::subscribe(m, config, mode, at_ms, id, event_ids) matches Ok(next)
            ==> all_carried(next.deliveries, next.events),
{
    let behind = records::events_behind(m.events, config.replay_after_sequence);
    if let Ok(next) = subscriptions::subscribe(m, config, mode, at_ms, id, event_ids) {
        assert forall|k: int|
            0 <= k < next.deliveries.len() && !(
            #[trigger] next.deliveries[k]).is_snapshot implies exists|j: int|
            0 <= j < next.events.len() && carries(
                next.deliveries[k],
                #[trigger] next.events[j],
            ) by {
            if k < m.deliveries.len() {
                assert(next.deliveries[k] == m.deliveries[k]);
            } else {
                let e = behind[k - m.deliveries.len()];
                assert(behind.contains(e));
                m.events.lemma_filter_contains_rev(
                    records::is_after(config.replay_after_sequence),
                    e,
                );
                let j = choose|j: int| 0 <= j < m.events.len() && m.events[j] == e;
                assert(carries(next.deliveries[k], next.events[j]));
            }
        }
    }
}

proof fn lemma_lease_carried(
    m: LedgerView,
    subscription_id: SubscriptionId,
    now_ms: i64,
    duration_ms: u64,
    token: LeaseToken,
)
    requires
        all_carried(m.deliveries, m.events),
    ensures
        leases::lease(m, subscription_id, now_ms, duration_ms, token) matches Ok((next, made))
            ==> all_carried(next.deliveries, next.events),
{
    if let Some(s) = m.subscription_at(subscription_id) {
        let policy = m.subscriptions[s].retry_policy;
        let queue = leases::sweep(m.deliveries, subscription_id, policy, now_ms);
        lemma_still_carried(m.deliveries, m.events, queue, m.events);
        if let Some(at) = leases::next_candidate(queue, subscription_id, now_ms) {
            assert(leases::is_next(queue, subscription_id, now_ms, at));
            let after = queue.update(
                at,
                leases::leased(queue[at], token, (now_ms + duration_ms) as i64),
            );
            lemma_still_carried(queue, m.events, after, m.events);
        }
    }
}

proof fn lemma_held_carried(
    m: LedgerView,
    held: LeaseView,
    now_ms: i64,
    next: spec_fn(DeliveryView) -> DeliveryView,
)
    requires
        all_carried(m.deliveries, m.events),
        forall|d: DeliveryView|
            {
                &&& (#[trigger] next(d)).is_snapshot == d.is_snapshot
                &&& next(d).event_id == d.event_id
                &&& next(d).event_sequence == d.event_sequence
                &&& next(d).record_id == d.record_id
                &&& next(d).record_version == d.record_version
                &&& next(d).kind == d.kind
                &&& next(d).revision_id == d.revision_id
                &&& next(d).location == d.location
            },
    ensures
        leases::on_held(m, held, now_ms, next) matches Ok(after) ==> all_carried(
            after.deliveries,
            after.events,
        ),
{
    ledger::lemma_find_first(m.deliveries, leases::is_held(held, now_ms));
    if let Some(at) = ledger::find_first(m.deliveries, leases::is_held(held, now_ms)) {
        let after = m.deliveries.update(at, next(m.deliveries[at]));
        lemma_still_carried(m.deliveries, m.events, after, m.events);
    }
}

proof fn lemma_step_carried(m: LedgerView, step: Step)
    requires
        all_carried(m.deliveries, m.events),
    ensures
        all_carried(
            history::stepped(m, step).deliveries,
            history::stepped(m, step).events,
        ),
{
    let next = history::stepped(m, step);
    match step {
        Step::Observe { identity, location, revision, at_ms, ids } => {
            lemma_observe_carried(m, identity, location, revision, at_ms, ids);
        },
        Step::Tombstone { identity, at_ms, event_id } => {
            if let Some(at) = m.record_with(identity) {
                lemma_changed_carried(
                    m,
                    at,
                    records::deletion(m.records[at], at_ms, event_id),
                );
            }
        },
        Step::ObserveForSource { scan, registration, identity, location, revision, at_ms, ids } => {
            lemma_observe_carried(m, identity, location, revision, at_ms, ids);
        },
        Step::ObserveScrubbed { source_id, identity, location, revision, at_ms, ids } => {
            lemma_observe_carried(m, identity, location, revision, at_ms, ids);
        },
        Step::CompleteScan { scan, grace, at_ms, event_ids } => {
            if let Some(grace) = grace {
                lemma_miss_all_carried(
                    m,
                    scan,
                    grace,
                    at_ms,
                    m.source_records.filter(sources::is_missing(scan)),
                    event_ids,
                );
            }
        },
        Step::Subscribe { config, mode, at_ms, id, event_ids } => {
            lemma_subscribe_carried(m, config, mode, at_ms, id, event_ids);
        },
        Step::Lease { subscription_id, now_ms, duration_ms, token } => {
            lemma_lease_carried(m, subscription_id, now_ms, duration_ms, token);
        },
        Step::Settle { held, outcome, at_ms, reason } => {
            lemma_held_carried(m, held, at_ms, leases::settled(outcome, at_ms, reason));
        },
        Step::Retry { held, now_ms } => {
            if let Some(s) = m.subscription_at(held.subscription_id) {
                let policy = m.subscriptions[s].retry_policy;
                if let Some(time) = delivery::not_before(policy, held.attempt, now_ms) {
                    lemma_held_carried(m, held, now_ms, leases::retried(policy, now_ms, time));
                }
            }
        },
        Step::Block { held, now_ms, why } => {
            lemma_held_carried(m, held, now_ms, leases::blocked(why));
        },
        _ => {
            assert(next.deliveries == m.deliveries && next.events == m.events);
        },
    }
}

/// Whatever happened before, every queue entry that is no snapshot carries an event of the archive
/// whole: its record, version and kind, the revision that it names, and its place. So what a lease gives
/// its holder is what the event said, whatever its kind.
pub proof fn law_every_entry_carries_its_event(steps: Seq<Step>)
    ensures
        forall|k: int|
            #![trigger history::reached(steps).deliveries[k]]
            0 <= k < history::reached(steps).deliveries.len() && !history::reached(
                steps,
            ).deliveries[k].is_snapshot ==> exists|j: int|
                {
                    let entry = history::reached(steps).deliveries[k];
                    let event = #[trigger] history::reached(steps).events[j];
                    &&& 0 <= j < history::reached(steps).events.len()
                    &&& entry.event_id == event.id
                    &&& entry.event_sequence == Some(event.sequence)
                    &&& entry.record_id == event.record_id
                    &&& entry.record_version == event.record_version
                    &&& entry.kind == event.kind
                    &&& entry.revision_id == event.revision_id
                    &&& entry.location == event.location
                },
{
    lemma_reached_carried(steps);
    let m = history::reached(steps);
    assert forall|k: int|
        0 <= k < m.deliveries.len() && !(#[trigger] m.deliveries[k]).is_snapshot implies exists|
        j: int,
    |
        {
            let entry = m.deliveries[k];
            let event = #[trigger] m.events[j];
            &&& 0 <= j < m.events.len()
            &&& entry.event_id == event.id
            &&& entry.event_sequence == Some(event.sequence)
            &&& entry.record_id == event.record_id
            &&& entry.record_version == event.record_version
            &&& entry.kind == event.kind
            &&& entry.revision_id == event.revision_id
            &&& entry.location == event.location
        } by {
        let j = choose|j: int|
            0 <= j < m.events.len() && carries(m.deliveries[k], #[trigger] m.events[j]);
        assert(m.deliveries[k].event_id == m.events[j].id);
    }
}

proof fn lemma_reached_carried(steps: Seq<Step>)
    ensures
        all_carried(history::reached(steps).deliveries, history::reached(steps).events),
    decreases steps.len(),
{
    if steps.len() > 0 {
        lemma_reached_carried(steps.drop_last());
        lemma_step_carried(history::reached(steps.drop_last()), steps.last());
    }
}

} // verus!
