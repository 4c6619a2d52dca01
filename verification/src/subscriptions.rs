//! Creating subscription epochs, with the events or the current records they start from.
use crate::catalog::{CatalogError, CatalogErrorView, ConstraintFault, MAX_STORED};
use crate::consistency;
use crate::delivery::{
    ConfigView, DeliveryError, DeliveryErrorView, DeliveryState, Subscription, SubscriptionConfig,
    SubscriptionId, SubscriptionMode,
};
use crate::domain;
use crate::domain::{ArchiveEvent, EventId, EventKind, EventView, RecordState};
use crate::ident;
use crate::ledger;
use crate::ledger::{
    Catalog, DeliveryView, LedgerView, RecordRow, RecordView, SubscriptionRow, SubscriptionView,
};
use crate::records;
use crate::records::new_delivery;
use crate::text;
use vstd::prelude::*;

verus! {

/// The number of a record's id.
pub open spec fn id_number(row: RecordView) -> u128 {
    row.id.id.value
}

/// `sorted` with `row` put behind every record with a smaller or equal id.
pub open spec fn insert_by_id(sorted: Seq<RecordView>, row: RecordView) -> Seq<RecordView>
    decreases sorted.len(),
{
    if sorted.len() == 0 || id_number(sorted.last()) <= id_number(row) {
        sorted.push(row)
    } else {
        insert_by_id(sorted.drop_last(), row).push(sorted.last())
    }
}

/// The active records in the order of their ids.
pub open spec fn active_by_id(rows: Seq<RecordView>) -> Seq<RecordView>
    decreases rows.len(),
{
    if rows.len() == 0 {
        Seq::empty()
    } else if rows.last().state == RecordState::Active {
        insert_by_id(active_by_id(rows.drop_last()), rows.last())
    } else {
        active_by_id(rows.drop_last())
    }
}

/// The event that stands for the current state of a record in a rebuilt epoch.
pub open spec fn snapshot_event(row: RecordView, id: EventId, at_ms: i64) -> EventView {
    EventView {
        id,
        sequence: 0,
        record_id: row.id,
        record_version: row.record_version,
        kind: EventKind::RevisionCommitted,
        revision_id: row.current_revision_id,
        location: Some(row.location),
        committed_at_ms: at_ms,
    }
}

/// The snapshot events of all active records, with these ids in order.
pub open spec fn snapshot_events(
    rows: Seq<RecordView>,
    ids: Seq<EventId>,
    at_ms: i64,
) -> Seq<EventView> {
    let active = active_by_id(rows);
    Seq::new(active.len(), |k: int| snapshot_event(active[k], ids[k], at_ms))
}

/// The queue entries of `events` for one subscription, numbered behind `after`.
pub open spec fn queue_of(
    subscription: SubscriptionView,
    events: Seq<EventView>,
    after: u64,
    is_snapshot: bool,
) -> Seq<DeliveryView> {
    Seq::new(
        events.len(),
        |k: int|
            records::delivery_for(subscription, events[k], (after + 1 + k) as u64, is_snapshot),
    )
}

/// The row of a new subscription.
pub open spec fn subscription_row(
    id: SubscriptionId,
    config: ConfigView,
    mode: SubscriptionMode,
    at_ms: i64,
) -> SubscriptionView {
    SubscriptionView {
        id,
        consumer_id: config.consumer_id,
        mode,
        max_active_leases: config.max_active_leases,
        accepts_moves: config.accepts_moves,
        accepts_tombstones: config.accepts_tombstones,
        created_at_ms: at_ms,
        enabled: true,
        retry_policy: config.retry_policy,
    }
}

/// Whether two of the first `count` ids are the same.
pub open spec fn repeats(ids: Seq<EventId>, count: int) -> bool {
    exists|i: int, j: int| 0 <= i < j < count && #[trigger] ids[i] == #[trigger] ids[j]
}

/// The events that an epoch starts from.
pub open spec fn starting_events(
    m: LedgerView,
    mode: SubscriptionMode,
    after: u64,
    event_ids: Seq<EventId>,
    at_ms: i64,
) -> Seq<EventView> {
    match mode {
        SubscriptionMode::ReplayEvents => records::events_behind(m.events, after),
        SubscriptionMode::RebuildCurrent => snapshot_events(m.records, event_ids, at_ms),
    }
}

/// Whether queue entries of these events can be stored.
spec fn storable(events: Seq<EventView>) -> bool {
    forall|k: int|
        0 <= k < events.len() ==> {
            &&& (#[trigger] events[k]).sequence <= MAX_STORED
            &&& 1 <= events[k].record_version <= MAX_STORED
            &&& events[k].location matches Some(location) ==> location.valid()
        }
}

/// What creating a subscription comes to, under this id and with these ids for snapshot events.
pub open spec fn subscribe(
    m: LedgerView,
    config: ConfigView,
    mode: SubscriptionMode,
    at_ms: i64,
    id: SubscriptionId,
    event_ids: Seq<EventId>,
) -> Result<LedgerView, DeliveryErrorView> {
    let policy = config.retry_policy;
    let row = subscription_row(id, config, mode, at_ms);
    let events = starting_events(m, mode, config.replay_after_sequence, event_ids, at_ms);
    if policy.initial_backoff_ms > MAX_STORED {
        Err(DeliveryErrorView::Corrupt("initial retry backoff"@ + " exceeds SQLite range"@))
    } else if policy.max_backoff_ms > MAX_STORED {
        Err(DeliveryErrorView::Corrupt("maximum retry backoff"@ + " exceeds SQLite range"@))
    } else if m.subscription_at(id) is Some {
        Err(
            DeliveryErrorView::Catalog(
                CatalogErrorView::Constraint(ConstraintFault::DuplicateIdentifier),
            ),
        )
    } else if mode == SubscriptionMode::ReplayEvents && config.replay_after_sequence > MAX_STORED {
        Err(DeliveryErrorView::Corrupt("replay event sequence"@ + " exceeds SQLite range"@))
    } else if mode == SubscriptionMode::RebuildCurrent && repeats(event_ids, events.len() as int) {
        Err(
            DeliveryErrorView::Catalog(
                CatalogErrorView::Constraint(ConstraintFault::DuplicateIdentifier),
            ),
        )
    } else if m.latest_delivery() + events.len() > MAX_STORED {
        Err(
            DeliveryErrorView::Catalog(
                CatalogErrorView::Constraint(ConstraintFault::NumberExhausted),
            ),
        )
    } else {
        Ok(
            LedgerView {
                subscriptions: m.subscriptions.push(row),
                deliveries: m.deliveries + queue_of(
                    row,
                    events,
                    m.latest_delivery(),
                    mode == SubscriptionMode::RebuildCurrent,
                ),
                ..m
            },
        )
    }
}

/// What creating a subscription came to, against what it should.
pub open spec fn subscribe_outcome(
    expected: Result<LedgerView, DeliveryErrorView>,
    before: LedgerView,
    after: LedgerView,
    config: ConfigView,
    mode: SubscriptionMode,
    id: SubscriptionId,
    result: Result<Subscription, DeliveryError>,
) -> bool {
    match expected {
        Ok(next) => {
            &&& result matches Ok(made)
            &&& made.id == id
            &&& made.consumer_id@ == config.consumer_id
            &&& made.mode == mode
            &&& made.replay_after_sequence == config.replay_after_sequence
            &&& made.enabled
            &&& after == next
        },
        Err(expected_error) => {
            &&& result matches Err(error)
            &&& error@ == expected_error
            &&& after == before
        },
    }
}

/// Inserting by id puts the record between those with smaller or equal and those with greater ids.
pub proof fn lemma_insert_by_id(sorted: Seq<RecordView>, row: RecordView, p: int)
    requires
        0 <= p <= sorted.len(),
        p > 0 ==> id_number(sorted[p - 1]) <= id_number(row),
        forall|k: int| p <= k < sorted.len() ==> id_number(#[trigger] sorted[k]) > id_number(row),
    ensures
        insert_by_id(sorted, row) == sorted.insert(p, row),
    decreases sorted.len(),
{
    if p == sorted.len() {
        assert(sorted.insert(p, row) =~= sorted.push(row));
        if sorted.len() > 0 {
            assert(sorted.last() == sorted[p - 1]);
        }
    } else {
        assert(sorted.last() == sorted[sorted.len() - 1]);
        let shorter = sorted.drop_last();
        assert forall|k: int| p <= k < shorter.len() implies id_number(#[trigger] shorter[k])
            > id_number(row) by {
            assert(shorter[k] == sorted[k]);
        }
        lemma_insert_by_id(shorter, row, p);
        assert(shorter.insert(p, row).push(sorted.last()) =~= sorted.insert(p, row));
    }
}

/// Ids ascend.
pub open spec fn ids_ascend(rows: Seq<RecordView>) -> bool {
    forall|i: int, j: int|
        0 <= i < j < rows.len() ==> id_number(#[trigger] rows[i]) <= id_number(#[trigger] rows[j])
}

proof fn lemma_insert_keeps_order(sorted: Seq<RecordView>, row: RecordView)
    requires
        ids_ascend(sorted),
    ensures
        ids_ascend(insert_by_id(sorted, row)),
        insert_by_id(sorted, row).to_multiset() == sorted.to_multiset().insert(row),
        insert_by_id(sorted, row).len() == sorted.len() + 1,
        forall|k: int|
            0 <= k < insert_by_id(sorted, row).len() ==> (#[trigger] insert_by_id(sorted, row)[k]
                == row || sorted.contains(insert_by_id(sorted, row)[k])),
    decreases sorted.len(),
{
    broadcast use vstd::seq_lib::group_to_multiset_ensures;

    let made = insert_by_id(sorted, row);
    if sorted.len() == 0 || id_number(sorted.last()) <= id_number(row) {
        assert forall|i: int, j: int| 0 <= i < j < made.len() implies id_number(#[trigger] made[i])
            <= id_number(#[trigger] made[j]) by {
            if j == sorted.len() && i < sorted.len() - 1 {
                assert(id_number(sorted[i]) <= id_number(sorted[sorted.len() - 1]));
            }
        }
    } else {
        let shorter = sorted.drop_last();
        assert(ids_ascend(shorter));
        lemma_insert_keeps_order(shorter, row);
        let inner = insert_by_id(shorter, row);
        assert(sorted =~= shorter.push(sorted.last()));
        assert forall|i: int, j: int| 0 <= i < j < made.len() implies id_number(#[trigger] made[i])
            <= id_number(#[trigger] made[j]) by {
            if j == inner.len() {
                assert(made[j] == sorted.last());
                assert(made[i] == inner[i]);
                assert(inner[i] == row || shorter.contains(inner[i]));
                if inner[i] != row {
                    let k = choose|k: int| 0 <= k < shorter.len() && shorter[k] == inner[i];
                    assert(id_number(sorted[k]) <= id_number(sorted[sorted.len() - 1]));
                }
            } else {
                assert(made[i] == inner[i] && made[j] == inner[j]);
            }
        }
        assert forall|k: int| 0 <= k < made.len() implies (#[trigger] made[k] == row
            || sorted.contains(made[k])) by {
            if k < inner.len() {
                assert(made[k] == inner[k]);
                if inner[k] != row {
                    let j = choose|j: int| 0 <= j < shorter.len() && shorter[j] == inner[k];
                    assert(sorted[j] == made[k]);
                }
            } else {
                assert(made[k] == sorted[sorted.len() - 1]);
            }
        }
        assert(made.to_multiset() =~= sorted.to_multiset().insert(row));
    }
}

/// Whether a record is present.
pub open spec fn is_active() -> spec_fn(RecordView) -> bool {
    |row: RecordView| row.state == RecordState::Active
}

/// A rebuilt epoch starts from exactly the active records, in the order of their ids.
pub proof fn law_rebuild_covers_active_records(rows: Seq<RecordView>)
    ensures
        ids_ascend(active_by_id(rows)),
        active_by_id(rows).to_multiset() == rows.filter(is_active()).to_multiset(),
        active_by_id(rows).len() <= rows.len(),
    decreases rows.len(),
{
    broadcast use vstd::seq_lib::group_to_multiset_ensures;

    if rows.len() == 0 {
        reveal(Seq::filter);
    } else {
        let shorter = rows.drop_last();
        law_rebuild_covers_active_records(shorter);
        assert(rows =~= shorter.push(rows.last()));
        shorter.lemma_filter_push(rows.last(), is_active());
        if rows.last().state == RecordState::Active {
            lemma_insert_keeps_order(active_by_id(shorter), rows.last());
            assert(rows.filter(is_active()) == shorter.filter(is_active()).push(rows.last()));
            assert(active_by_id(rows).to_multiset() =~= rows.filter(is_active()).to_multiset());
        }
    }
}

/// A new epoch only adds: records, revisions, events and the deliveries of other epochs stay as
/// they are. A replay queues every event behind its cursor, in archive order, under the event's own
/// id; a rebuild queues one snapshot for each active record, under a fresh id, of its current
/// version, bytes and location.
pub proof fn law_epoch_adds_its_own_deliveries(
    m: LedgerView,
    config: ConfigView,
    mode: SubscriptionMode,
    at_ms: i64,
    id: SubscriptionId,
    event_ids: Seq<EventId>,
)
    ensures
        subscribe(m, config, mode, at_ms, id, event_ids) matches Ok(next) ==> {
            let old_count = m.deliveries.len();
            let replayed = records::events_behind(m.events, config.replay_after_sequence);
            let active = active_by_id(m.records);
            &&& next.records == m.records
            &&& next.revisions == m.revisions
            &&& next.events == m.events
            &&& next.deliveries.take(old_count as int) == m.deliveries
            &&& forall|k: int|
                old_count <= k < next.deliveries.len() ==> (
                #[trigger] next.deliveries[k]).subscription_id == id
            &&& mode == SubscriptionMode::ReplayEvents ==> {
                &&& next.deliveries.len() == old_count + replayed.len()
                &&& forall|k: int|
                    #![trigger replayed[k]]
                    0 <= k < replayed.len() ==> {
                        let entry = next.deliveries[old_count + k];
                        &&& entry.event_id == replayed[k].id
                        &&& entry.event_sequence == Some(replayed[k].sequence)
                        &&& entry.record_version == replayed[k].record_version
                        &&& entry.kind == replayed[k].kind
                        &&& !entry.is_snapshot
                    }
            }
            &&& mode == SubscriptionMode::RebuildCurrent ==> {
                &&& next.deliveries.len() == old_count + active.len()
                &&& forall|k: int|
                    #![trigger active[k]]
                    0 <= k < active.len() ==> {
                        let entry = next.deliveries[old_count + k];
                        &&& entry.event_id == event_ids[k]
                        &&& entry.event_sequence is None
                        &&& entry.record_id == active[k].id
                        &&& entry.record_version == active[k].record_version
                        &&& entry.revision_id == active[k].current_revision_id
                        &&& entry.location == Some(active[k].location)
                        &&& entry.state == DeliveryState::Queued
                        &&& entry.is_snapshot
                    }
            }
        },
{
    if let Ok(next) = subscribe(m, config, mode, at_ms, id, event_ids) {
        assert(next.deliveries.take(m.deliveries.len() as int) =~= m.deliveries);
    }
}

/// The positions of the active records in the order of their ids.
fn active_order(rows: &Vec<RecordRow>) -> (result: Vec<usize>)
    ensures
        result@.len() == active_by_id(text::views(rows@)).len(),
        result@.len() <= rows@.len(),
        forall|k: int| 0 <= k < result@.len() ==> (#[trigger] result@[k]) < rows@.len(),
        forall|k: int|
            0 <= k < result@.len() ==> rows@[(#[trigger] result@[k]) as int]@ == active_by_id(
                text::views(rows@),
            )[k],
{
    let ghost all = text::views(rows@);
    let mut order: Vec<usize> = Vec::new();
    let mut i: usize = 0;
    assert(all.take(0) =~= Seq::<RecordView>::empty());
    while i < rows.len()
        invariant
            i <= rows@.len(),
            all == text::views(rows@),
            order@.len() <= i,
            order@.len() == active_by_id(all.take(i as int)).len(),
            forall|k: int| 0 <= k < order@.len() ==> (#[trigger] order@[k]) < rows@.len(),
            forall|k: int|
                0 <= k < order@.len() ==> rows@[(#[trigger] order@[k]) as int]@ == active_by_id(
                    all.take(i as int),
                )[k],
        decreases rows@.len() - i,
    {
        let ghost sorted = active_by_id(all.take(i as int));
        let ghost row = all[i as int];
        proof {
            assert(all.take(i + 1).drop_last() =~= all.take(i as int));
            assert(all.take(i + 1).last() == row);
            assert(rows@[i as int]@ == row);
        }
        if rows[i].state == RecordState::Active {
            let mut p: usize = order.len();
            while p > 0 && rows[order[p - 1]].id.id.value > rows[i].id.id.value
                invariant
                    p <= order@.len(),
                    i < rows@.len(),
                    rows@[i as int]@ == row,
                    order@.len() == sorted.len(),
                    forall|k: int| 0 <= k < order@.len() ==> (#[trigger] order@[k]) < rows@.len(),
                    forall|k: int|
                        0 <= k < order@.len() ==> rows@[(#[trigger] order@[k]) as int]@ == sorted[k],
                    forall|k: int|
                        p <= k < sorted.len() ==> id_number(#[trigger] sorted[k]) > id_number(row),
                decreases p,
            {
                assert(rows@[order@[p - 1] as int]@ == sorted[p - 1]);
                p -= 1;
            }
            proof {
                if p > 0 {
                    assert(rows@[order@[p - 1] as int]@ == sorted[p - 1]);
                }
                lemma_insert_by_id(sorted, row, p as int);
            }
            let ghost before = order@;
            order.insert(p, i);
            proof {
                assert(order@ == before.insert(p as int, i));
                assert forall|k: int| 0 <= k < order@.len() implies rows@[(
                #[trigger] order@[k]) as int]@ == sorted.insert(p as int, row)[k] && order@[k]
                    < rows@.len() by {
                    if k < p {
                        assert(order@[k] == before[k]);
                    } else if k > p {
                        assert(order@[k] == before[k - 1]);
                    }
                }
            }
        }
        i += 1;
    }
    assert(all.take(all.len() as int) =~= all);
    order
}

/// Whether two of the first `count` ids are the same.
fn ids_repeat(ids: &Vec<EventId>, count: usize) -> (result: bool)
    requires
        count <= ids@.len(),
    ensures
        result == repeats(ids@, count as int),
{
    let mut j: usize = 0;
    while j < count
        invariant
            j <= count <= ids@.len(),
            forall|a: int, b: int| 0 <= a < b < j ==> #[trigger] ids@[a] != #[trigger] ids@[b],
        decreases count - j,
    {
        let mut i: usize = 0;
        while i < j
            invariant
                i <= j < count <= ids@.len(),
                forall|a: int| 0 <= a < i ==> #[trigger] ids@[a] != ids@[j as int],
            decreases j - i,
        {
            if ids[i] == ids[j] {
                assert(ids@[i as int] == ids@[j as int]);
                return true;
            }
            i += 1;
        }
        j += 1;
    }
    false
}

/// Appending a queue of storable events keeps a catalog well-formed.
proof fn lemma_subscribe_wf(
    m: LedgerView,
    row: SubscriptionView,
    events: Seq<EventView>,
    is_snapshot: bool,
)
    requires
        m.wf(),
        ledger::subscription_ok(row),
        m.latest_delivery() + events.len() <= MAX_STORED,
        storable(events),
    ensures
        (LedgerView {
            subscriptions: m.subscriptions.push(row),
            deliveries: m.deliveries + queue_of(row, events, m.latest_delivery(), is_snapshot),
            ..m
        }).wf(),
{
    let entries = queue_of(row, events, m.latest_delivery(), is_snapshot);
    let next = LedgerView {
        subscriptions: m.subscriptions.push(row),
        deliveries: m.deliveries + entries,
        ..m
    };
    records::lemma_latest(m);
    assert forall|i: int| 0 <= i < next.subscriptions.len() implies ledger::subscription_ok(
        #[trigger] next.subscriptions[i],
    ) by {
        if i < m.subscriptions.len() {
            assert(ledger::subscription_ok(m.subscriptions[i]));
        }
    }
    assert forall|i: int| 0 <= i < next.deliveries.len() implies ledger::delivery_ok(
        #[trigger] next.deliveries[i],
    ) by {
        if i < m.deliveries.len() {
            assert(ledger::delivery_ok(m.deliveries[i]));
        } else {
            let k = i - m.deliveries.len();
            assert(next.deliveries[i] == entries[k]);
            assert(events[k].sequence <= MAX_STORED);
        }
    }
    assert forall|i: int, j: int| 0 <= i < j < next.deliveries.len() implies (
    #[trigger] next.deliveries[i]).id < (#[trigger] next.deliveries[j]).id by {
        if j < m.deliveries.len() {
            assert(m.deliveries[i].id < m.deliveries[j].id);
        } else {
            assert(next.deliveries[j] == entries[j - m.deliveries.len()]);
            if i >= m.deliveries.len() {
                assert(next.deliveries[i] == entries[i - m.deliveries.len()]);
            }
        }
    }
}

impl Catalog {
    /// The snapshot events of all active records, with these ids in order.
    fn snapshot(&self, ids: &Vec<EventId>, at_ms: i64) -> (result: Vec<ArchiveEvent>)
        requires
            ids@.len() >= self@.records.len(),
        ensures
            text::views(result@) == snapshot_events(self@.records, ids@, at_ms),
            result@.len() <= ids@.len(),
    {
        let order = active_order(&self.records);
        let ghost goal = snapshot_events(self@.records, ids@, at_ms);
        let mut events: Vec<ArchiveEvent> = Vec::new();
        let mut k: usize = 0;
        while k < order.len()
            invariant
                k <= order@.len() <= ids@.len(),
                events@.len() == k,
                goal == snapshot_events(self@.records, ids@, at_ms),
                order@.len() == active_by_id(self@.records).len(),
                forall|j: int|
                    0 <= j < order@.len() ==> (#[trigger] order@[j]) < self.records@.len(),
                forall|j: int|
                    0 <= j < order@.len() ==> self.records@[(#[trigger] order@[j]) as int]@
                        == active_by_id(self@.records)[j],
                forall|j: int| 0 <= j < k ==> (#[trigger] events@[j])@ == goal[j],
            decreases order@.len() - k,
        {
            let row = &self.records[order[k]];
            let event = ArchiveEvent {
                id: ids[k],
                sequence: 0,
                record_id: row.id,
                record_version: row.record_version,
                kind: EventKind::RevisionCommitted,
                revision_id: row.current_revision_id,
                location: Some(row.location.clone()),
                committed_at_ms: at_ms,
            };
            assert(event@ == goal[k as int]);
            events.push(event);
            k += 1;
        }
        assert(text::views(events@) =~= goal);
        events
    }

    /// Creates a subscription under this id. A rebuilt epoch gives its snapshot events these ids.
    pub fn create_subscription_with(
        &mut self,
        config: SubscriptionConfig,
        mode: SubscriptionMode,
        created_at_ms: i64,
        id: SubscriptionId,
        event_ids: &Vec<EventId>,
    ) -> (result: Result<Subscription, DeliveryError>)
        requires
            old(self).wf(),
            event_ids@.len() >= old(self)@.records.len(),
        ensures
            final(self).wf(),
            consistency::consistent(old(self)@) ==> consistency::consistent(final(self)@),
            subscribe_outcome(
                subscribe(old(self)@, config@, mode, created_at_ms, id, event_ids@),
                old(self)@,
                final(self)@,
                config@,
                mode,
                id,
                result,
            ),
    {
        let ghost expected = subscribe(self@, config@, mode, created_at_ms, id, event_ids@);
        assert(consistency::consistent(self@) && expected is Ok ==> consistency::consistent(
            expected->Ok_0,
        )) by {
            if consistency::consistent(self@) {
                consistency::law_subscribe_keeps_consistent(
                    self@,
                    config@,
                    mode,
                    created_at_ms,
                    id,
                    event_ids@,
                );
            }
        }
        proof {
            use_type_invariant(&config);
        }
        let ghost m = self@;
        let policy = config.retry_policy();
        if policy.initial_backoff_ms > MAX_STORED {
            return Err(
                DeliveryError::Corrupt(
                    text::concat2("initial retry backoff", " exceeds SQLite range"),
                ),
            );
        }
        if policy.max_backoff_ms > MAX_STORED {
            return Err(
                DeliveryError::Corrupt(
                    text::concat2("maximum retry backoff", " exceeds SQLite range"),
                ),
            );
        }
        if self.find_subscription(id).is_some() {
            return Err(
                DeliveryError::Catalog(
                    CatalogError::Constraint(ConstraintFault::DuplicateIdentifier),
                ),
            );
        }
        let is_snapshot: bool = mode == SubscriptionMode::RebuildCurrent;
        let events: Vec<ArchiveEvent> = if is_snapshot {
            let events = self.snapshot(event_ids, created_at_ms);
            if ids_repeat(event_ids, events.len()) {
                return Err(
                    DeliveryError::Catalog(
                        CatalogError::Constraint(ConstraintFault::DuplicateIdentifier),
                    ),
                );
            }
            events
        } else {
            if config.replay_after_sequence() > MAX_STORED {
                return Err(
                    DeliveryError::Corrupt(
                        text::concat2("replay event sequence", " exceeds SQLite range"),
                    ),
                );
            }
            match self.events_after(config.replay_after_sequence()) {
                Ok(events) => events,
                Err(error) => {
                    return Err(DeliveryError::Catalog(error));
                },
            }
        };
        let ghost queue_events = text::views(events@);
        let after: u64 = self.latest_delivery_id();
        if after as u128 + events.len() as u128 > MAX_STORED as u128 {
            return Err(
                DeliveryError::Catalog(CatalogError::Constraint(ConstraintFault::NumberExhausted)),
            );
        }
        let row = SubscriptionRow {
            id,
            consumer_id: config.consumer_id().to_owned(),
            mode,
            max_active_leases: config.max_active_leases(),
            accepts_moves: config.accepts_moves(),
            accepts_tombstones: config.accepts_tombstones(),
            created_at_ms,
            enabled: true,
            retry_policy: policy,
        };
        proof {
            lemma_start_events_ok(m, mode, config@.replay_after_sequence, event_ids@, created_at_ms);
            lemma_subscribe_wf(m, row@, queue_events, is_snapshot);
        }
        let ghost entries = queue_of(row@, queue_events, after, is_snapshot);
        let ghost before = *self;
        let mut k: usize = 0;
        assert(m.deliveries + entries.take(0) =~= m.deliveries);
        while k < events.len()
            invariant
                k <= events@.len(),
                queue_events == text::views(events@),
                entries == queue_of(row@, queue_events, after, is_snapshot),
                after + events@.len() <= MAX_STORED,
                self@ == (LedgerView { deliveries: m.deliveries + entries.take(k as int), ..m }),
            decreases events@.len() - k,
        {
            let ghost prior = *self;
            let entry = new_delivery(&row, &events[k], after + 1 + k as u64, is_snapshot);
            self.deliveries.push(entry);
            proof {
                text::lemma_views_push(prior.deliveries@, entry);
                assert(events@[k as int]@ == queue_events[k as int]);
                assert(entry@ == entries[k as int]);
                assert(m.deliveries + entries.take(k + 1) =~= (m.deliveries + entries.take(
                    k as int,
                )).push(entries[k as int]));
            }
            k += 1;
        }
        assert(entries.take(entries.len() as int) =~= entries);
        let made = Subscription {
            id,
            consumer_id: config.consumer_id().to_owned(),
            mode,
            replay_after_sequence: config.replay_after_sequence(),
            enabled: true,
        };
        let ghost last = *self;
        self.subscriptions.push(row);
        proof {
            text::lemma_views_push(last.subscriptions@, row);
            assert(row@ == subscription_row(id, config@, mode, created_at_ms));
            assert(self@ =~= LedgerView {
                subscriptions: m.subscriptions.push(row@),
                deliveries: m.deliveries + entries,
                ..m
            });
        }
        Ok(made)
    }

    /// Creates a subscription with fresh identifiers.
    pub fn create_subscription(
        &mut self,
        config: SubscriptionConfig,
        mode: SubscriptionMode,
        created_at_ms: i64,
    ) -> (result: Result<Subscription, DeliveryError>)
        requires
            old(self).wf(),
        ensures
            final(self).wf(),
            consistency::consistent(old(self)@) ==> consistency::consistent(final(self)@),
            exists|id: SubscriptionId, event_ids: Seq<EventId>|
                ident::is_random_form(id.id.value) && domain::all_drawn(event_ids)
                    && event_ids.len() == old(self)@.records.len() && subscribe_outcome(
                    #[trigger] subscribe(
                        old(self)@,
                        config@,
                        mode,
                        created_at_ms,
                        id,
                        event_ids,
                    ),
                    old(self)@,
                    final(self)@,
                    config@,
                    mode,
                    id,
                    result,
                ),
    {
        let mut event_ids: Vec<EventId> = Vec::new();
        while event_ids.len() < self.records.len()
            invariant
                event_ids@.len() <= self.records@.len(),
                domain::all_drawn(event_ids@),
            decreases self.records@.len() - event_ids@.len(),
        {
            event_ids.push(EventId::new());
        }
        let id = SubscriptionId::new();
        self.create_subscription_with(config, mode, created_at_ms, id, &event_ids)
    }
}

/// No two active records of distinct records share an id.
pub proof fn lemma_active_distinct(rows: Seq<RecordView>)
    requires
        forall|i: int, j: int|
            0 <= i < j < rows.len() ==> (#[trigger] rows[i]).id != (#[trigger] rows[j]).id,
    ensures
        forall|i: int, j: int|
            0 <= i < j < active_by_id(rows).len() ==> (#[trigger] active_by_id(rows)[i]).id != (
            #[trigger] active_by_id(rows)[j]).id,
    decreases rows.len(),
{
    if rows.len() > 0 {
        let shorter = rows.drop_last();
        let inner = active_by_id(shorter);
        let last = rows.last();
        lemma_active_distinct(shorter);
        if last.state == RecordState::Active {
            assert forall|k: int| 0 <= k < inner.len() implies (#[trigger] inner[k]).id
                != last.id by {
                lemma_active_from(shorter, k);
                let i = choose|i: int| 0 <= i < shorter.len() && shorter[i] == inner[k];
                assert(rows[i] == inner[k]);
                assert(rows[i].id != rows[rows.len() - 1].id);
            }
            lemma_insert_distinct(inner, last);
        }
    }
}

proof fn lemma_insert_distinct(sorted: Seq<RecordView>, row: RecordView)
    requires
        forall|i: int, j: int|
            0 <= i < j < sorted.len() ==> (#[trigger] sorted[i]).id != (#[trigger] sorted[j]).id,
        forall|i: int| 0 <= i < sorted.len() ==> (#[trigger] sorted[i]).id != row.id,
    ensures
        forall|i: int, j: int|
            0 <= i < j < insert_by_id(sorted, row).len() ==> (#[trigger] insert_by_id(
                sorted,
                row,
            )[i]).id != (#[trigger] insert_by_id(sorted, row)[j]).id,
        forall|k: int|
            0 <= k < insert_by_id(sorted, row).len() ==> ((#[trigger] insert_by_id(sorted, row)[k])
                == row || sorted.contains(insert_by_id(sorted, row)[k])),
    decreases sorted.len(),
{
    let made = insert_by_id(sorted, row);
    if sorted.len() == 0 || id_number(sorted.last()) <= id_number(row) {
        assert forall|k: int| 0 <= k < made.len() implies ((#[trigger] made[k]) == row
            || sorted.contains(made[k])) by {
            if k < sorted.len() {
                assert(made[k] == sorted[k]);
            }
        }
    } else {
        let shorter = sorted.drop_last();
        let inner = insert_by_id(shorter, row);
        assert forall|i: int| 0 <= i < shorter.len() implies (#[trigger] shorter[i]).id != row.id by {
            assert(shorter[i] == sorted[i]);
        }
        lemma_insert_distinct(shorter, row);
        assert forall|k: int| 0 <= k < made.len() implies ((#[trigger] made[k]) == row
            || sorted.contains(made[k])) by {
            if k < inner.len() {
                assert(made[k] == inner[k]);
                if inner[k] != row {
                    let j = choose|j: int| 0 <= j < shorter.len() && shorter[j] == inner[k];
                    assert(sorted[j] == made[k]);
                }
            } else {
                assert(made[k] == sorted[sorted.len() - 1]);
            }
        }
        assert forall|i: int, j: int| 0 <= i < j < made.len() implies (#[trigger] made[i]).id != (
        #[trigger] made[j]).id by {
            assert(made[i] == inner[i]);
            if j < inner.len() {
                assert(made[j] == inner[j]);
            } else {
                assert(made[j] == sorted[sorted.len() - 1]);
                if inner[i] != row {
                    let k = choose|k: int| 0 <= k < shorter.len() && shorter[k] == inner[i];
                    assert(sorted[k].id != sorted[sorted.len() - 1].id);
                }
            }
        }
    }
}

/// Every active record is one of the records.
pub proof fn lemma_active_from(rows: Seq<RecordView>, k: int)
    requires
        0 <= k < active_by_id(rows).len(),
    ensures
        rows.contains(active_by_id(rows)[k]),
    decreases rows.len(),
{
    if rows.len() > 0 {
        let shorter = rows.drop_last();
        let inner = active_by_id(shorter);
        if rows.last().state == RecordState::Active {
            law_rebuild_covers_active_records(shorter);
            lemma_insert_keeps_order(inner, rows.last());
            let made = insert_by_id(inner, rows.last());
            assert(made[k] == rows.last() || inner.contains(made[k]));
            if made[k] == rows.last() {
                assert(rows[rows.len() - 1] == made[k]);
            } else {
                let j = choose|j: int| 0 <= j < inner.len() && inner[j] == made[k];
                lemma_active_from(shorter, j);
                let i = choose|i: int| 0 <= i < shorter.len() && shorter[i] == inner[j];
                assert(rows[i] == made[k]);
            }
        } else {
            lemma_active_from(shorter, k);
            let i = choose|i: int| 0 <= i < shorter.len() && shorter[i] == inner[k];
            assert(rows[i] == inner[k]);
        }
    }
}

/// The events that an epoch starts from can be stored.
proof fn lemma_start_events_ok(
    m: LedgerView,
    mode: SubscriptionMode,
    after: u64,
    ids: Seq<EventId>,
    at_ms: i64,
)
    requires
        m.wf(),
    ensures
        storable(starting_events(m, mode, after, ids, at_ms)),
{
    match mode {
        SubscriptionMode::ReplayEvents => {
            let events = records::events_behind(m.events, after);
            assert forall|k: int| 0 <= k < events.len() implies {
                &&& (#[trigger] events[k]).sequence <= MAX_STORED
                &&& 1 <= events[k].record_version <= MAX_STORED
                &&& events[k].location matches Some(location) ==> location.valid()
            } by {
                m.events.lemma_filter_contains_rev(records::is_after(after), events[k]);
                let i = choose|i: int| 0 <= i < m.events.len() && m.events[i] == events[k];
                assert(ledger::event_ok(m.events[i]));
            }
        },
        SubscriptionMode::RebuildCurrent => {
            let active = active_by_id(m.records);
            let events = snapshot_events(m.records, ids, at_ms);
            assert forall|k: int| 0 <= k < events.len() implies {
                &&& (#[trigger] events[k]).sequence <= MAX_STORED
                &&& 1 <= events[k].record_version <= MAX_STORED
                &&& events[k].location matches Some(location) ==> location.valid()
            } by {
                lemma_active_from(m.records, k);
                let i = choose|i: int| 0 <= i < m.records.len() && m.records[i] == active[k];
                assert(ledger::record_ok(m.records[i]));
            }
        },
    }
}

} // verus!
