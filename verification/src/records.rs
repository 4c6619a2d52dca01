//! Record versions: observing a present record, deleting one, and the ordered event history.
use crate::catalog::{CatalogError, CatalogErrorView, ConstraintFault, MAX_STORED};
use crate::consistency;
use crate::delivery::initial_delivery_state;
use crate::domain::{
    copy_location, ArchiveEvent, CanonicalRevision, EventId, EventKind, EventView, IdentityView,
    LocationView, LogicalLocation, RecordId, RecordIdentity, RecordState, RevisionId, RevisionView,
};
use crate::ident;
use crate::ledger;
use crate::ledger::{
    Catalog, DeliveryRow, DeliveryView, LedgerView, RecordRow, RecordView, RevisionRow,
    RevisionRowView, SubscriptionRow, SubscriptionView,
};
use crate::text;
use vstd::prelude::*;

verus! {

/// The queue entry of `event` for `subscription`.
pub open spec fn delivery_for(
    subscription: SubscriptionView,
    event: EventView,
    id: u64,
    is_snapshot: bool,
) -> DeliveryView {
    DeliveryView {
        id,
        subscription_id: subscription.id,
        event_id: event.id,
        event_sequence: if is_snapshot {
            None
        } else {
            Some(event.sequence)
        },
        record_id: event.record_id,
        record_version: event.record_version,
        kind: event.kind,
        revision_id: event.revision_id,
        location: event.location,
        is_snapshot,
        state: crate::delivery::initial_state(
            subscription.accepts_moves,
            subscription.accepts_tombstones,
            event.kind,
        ),
        attempts: 0,
        lease_token: None,
        lease_expires_at_ms: None,
        not_before_ms: 0,
        settled_at_ms: None,
        settlement_reason: None,
        created_at_ms: event.committed_at_ms,
    }
}

/// One queue entry of `event` for every subscription, paused ones too, numbered behind `after`.
pub open spec fn fan_out(
    subscriptions: Seq<SubscriptionView>,
    event: EventView,
    after: u64,
) -> Seq<DeliveryView> {
    Seq::new(
        subscriptions.len(),
        |i: int| delivery_for(subscriptions[i], event, (after + 1 + i) as u64, false),
    )
}

/// A change of one record.
#[verifier::ext_equal]
pub struct ChangeView {
    pub event_id: EventId,
    pub kind: EventKind,
    pub revision_id: Option<RevisionId>,
    pub location: LocationView,
    pub state: RecordState,
    pub at_ms: i64,
}

/// The event of a change: the record's next version, behind the last event.
pub open spec fn change_event(m: LedgerView, at: int, change: ChangeView) -> EventView {
    EventView {
        id: change.event_id,
        sequence: (m.latest_sequence() + 1) as u64,
        record_id: m.records[at].id,
        record_version: (m.records[at].record_version + 1) as u64,
        kind: change.kind,
        revision_id: change.revision_id,
        location: Some(change.location),
        committed_at_ms: change.at_ms,
    }
}

/// The catalog behind a change: the record updated, its event appended and queued.
pub open spec fn changed(m: LedgerView, at: int, change: ChangeView) -> LedgerView {
    let event = change_event(m, at, change);
    LedgerView {
        records: m.records.update(
            at,
            RecordView {
                location: change.location,
                record_version: event.record_version,
                state: change.state,
                current_revision_id: change.revision_id,
                updated_at_ms: change.at_ms,
                ..m.records[at]
            },
        ),
        events: m.events.push(event),
        deliveries: m.deliveries + fan_out(m.subscriptions, event, m.latest_delivery()),
        ..m
    }
}

/// Why a change of a record at this version is refused.
pub open spec fn change_refusal(m: LedgerView, version: u64, event_id: EventId) -> Option<
    CatalogErrorView,
> {
    if version + 1 > MAX_STORED {
        Some(CatalogErrorView::Corrupt("record version"@ + " exceeds SQLite INTEGER range"@))
    } else if m.event_id_used(event_id) {
        Some(CatalogErrorView::Constraint(ConstraintFault::DuplicateIdentifier))
    } else if m.latest_sequence() + 1 > MAX_STORED || m.latest_delivery() + m.subscriptions.len()
        > MAX_STORED {
        Some(CatalogErrorView::Constraint(ConstraintFault::NumberExhausted))
    } else {
        None
    }
}

/// What a change comes to.
pub open spec fn change_record(m: LedgerView, at: int, change: ChangeView) -> Result<
    (LedgerView, EventView),
    CatalogErrorView,
> {
    match change_refusal(m, m.records[at].record_version, change.event_id) {
        Some(error) => Err(error),
        None => Ok((changed(m, at, change), change_event(m, at, change))),
    }
}

/// The identifiers that one observation may use up.
#[derive(Clone, Copy, Debug, Eq, PartialEq, Structural)]
pub struct ObservationIds {
    pub record_id: RecordId,
    pub revision_id: RevisionId,
    pub first_event: EventId,
    pub second_event: EventId,
}

/// Whether every one of the identifiers has the form of a random one.
pub open spec fn drawn(ids: ObservationIds) -> bool {
    &&& ident::is_random_form(ids.record_id.id.value)
    &&& ident::is_random_form(ids.revision_id.id.value)
    &&& ident::is_random_form(ids.first_event.id.value)
    &&& ident::is_random_form(ids.second_event.id.value)
}

impl ObservationIds {
    /// Fresh random identifiers.
    pub fn draw() -> (result: ObservationIds)
        ensures
            drawn(result),
    {
        ObservationIds {
            record_id: RecordId::new(),
            revision_id: RevisionId::new(),
            first_event: EventId::new(),
            second_event: EventId::new(),
        }
    }
}

/// The catalog with this revision of this record known, and the revision's id.
pub open spec fn know_revision(
    m: LedgerView,
    record_id: RecordId,
    revision: RevisionView,
    at_ms: i64,
    fresh: RevisionId,
) -> Result<(LedgerView, RevisionId), CatalogErrorView> {
    if revision.byte_length > MAX_STORED {
        Err(CatalogErrorView::Corrupt("revision byte length"@ + " exceeds SQLite INTEGER range"@))
    } else {
        match ledger::find_first(m.revisions, ledger::has_revision(record_id, revision)) {
            Some(at) => Ok(
                (
                    LedgerView {
                        revisions: m.revisions.update(
                            at,
                            RevisionRowView { last_observed_at_ms: at_ms, ..m.revisions[at] },
                        ),
                        ..m
                    },
                    m.revisions[at].id,
                ),
            ),
            None => if ledger::find_first(m.revisions, ledger::has_revision_id(fresh)) is Some {
                Err(CatalogErrorView::Constraint(ConstraintFault::DuplicateIdentifier))
            } else {
                Ok(
                    (
                        LedgerView {
                            revisions: m.revisions.push(
                                RevisionRowView {
                                    id: fresh,
                                    record_id,
                                    revision,
                                    first_observed_at_ms: at_ms,
                                    last_observed_at_ms: at_ms,
                                },
                            ),
                            ..m
                        },
                        fresh,
                    ),
                )
            },
        }
    }
}

/// A record that no event has touched yet.
pub open spec fn unborn(
    id: RecordId,
    identity: IdentityView,
    location: LocationView,
    at_ms: i64,
) -> RecordView {
    RecordView {
        id,
        identity,
        location,
        record_version: 0,
        state: RecordState::Active,
        current_revision_id: None,
        created_at_ms: at_ms,
        updated_at_ms: at_ms,
    }
}

/// The observation of a present record that stands at position `at`: a deleted record is restored
/// first, then new bytes are committed, or else a move is noted.
pub open spec fn observe_at(
    m: LedgerView,
    at: int,
    location: LocationView,
    revision: RevisionView,
    at_ms: i64,
    ids: ObservationIds,
) -> Result<(LedgerView, Seq<EventView>), CatalogErrorView> {
    let record = m.records[at];
    let restored = if record.state == RecordState::Tombstoned {
        match change_record(
            m,
            at,
            ChangeView {
                event_id: ids.first_event,
                kind: EventKind::RecordRestored,
                revision_id: record.current_revision_id,
                location,
                state: RecordState::Active,
                at_ms,
            },
        ) {
            Ok((next, event)) => Ok((next, seq![event])),
            Err(error) => Err(error),
        }
    } else {
        Ok((m, Seq::<EventView>::empty()))
    };
    match restored {
        Err(error) => Err(error),
        Ok((m1, events)) => match know_revision(m1, record.id, revision, at_ms, ids.revision_id) {
            Err(error) => Err(error),
            Ok((m2, revision_id)) => {
                let event_id = if events.len() == 0 {
                    ids.first_event
                } else {
                    ids.second_event
                };
                if m.revision_bytes(record.current_revision_id) != Some(revision) {
                    match change_record(
                        m2,
                        at,
                        ChangeView {
                            event_id,
                            kind: EventKind::RevisionCommitted,
                            revision_id: Some(revision_id),
                            location,
                            state: RecordState::Active,
                            at_ms,
                        },
                    ) {
                        Ok((m3, event)) => Ok((m3, events.push(event))),
                        Err(error) => Err(error),
                    }
                } else if m2.records[at].location != location {
                    match change_record(
                        m2,
                        at,
                        ChangeView {
                            event_id,
                            kind: EventKind::LocationChanged,
                            revision_id: record.current_revision_id,
                            location,
                            state: RecordState::Active,
                            at_ms,
                        },
                    ) {
                        Ok((m3, event)) => Ok((m3, events.push(event))),
                        Err(error) => Err(error),
                    }
                } else {
                    Ok((m2, events))
                }
            },
        },
    }
}

/// The observation of a present record, cataloged before or not.
pub open spec fn observe(
    m: LedgerView,
    identity: IdentityView,
    location: LocationView,
    revision: RevisionView,
    at_ms: i64,
    ids: ObservationIds,
) -> Result<(LedgerView, Seq<EventView>), CatalogErrorView> {
    match m.record_with(identity) {
        Some(at) => observe_at(m, at, location, revision, at_ms, ids),
        None => if m.record_at(ids.record_id) is Some {
            Err(CatalogErrorView::Constraint(ConstraintFault::DuplicateIdentifier))
        } else {
            observe_at(
                LedgerView {
                    records: m.records.push(unborn(ids.record_id, identity, location, at_ms)),
                    ..m
                },
                m.records.len() as int,
                location,
                revision,
                at_ms,
                ids,
            )
        },
    }
}

/// The deletion of the record with this identity, where it is cataloged and active.
pub open spec fn tombstone(
    m: LedgerView,
    identity: IdentityView,
    at_ms: i64,
    event_id: EventId,
) -> Result<(LedgerView, Option<EventView>), CatalogErrorView> {
    match m.record_with(identity) {
        None => Ok((m, None)),
        Some(at) => if m.records[at].state == RecordState::Tombstoned {
            Ok((m, None))
        } else {
            match change_record(m, at, deletion(m.records[at], at_ms, event_id)) {
                Ok((next, event)) => Ok((next, Some(event))),
                Err(error) => Err(error),
            }
        },
    }
}

/// The change that deletes a record where it lies.
pub open spec fn deletion(record: RecordView, at_ms: i64, event_id: EventId) -> ChangeView {
    ChangeView {
        event_id,
        kind: EventKind::RecordTombstoned,
        revision_id: record.current_revision_id,
        location: record.location,
        state: RecordState::Tombstoned,
        at_ms,
    }
}

/// Well-formed but for the version of the record at `at`, which may still be zero.
pub open spec fn wf_but_version(m: LedgerView, at: int) -> bool {
    &&& 0 <= at < m.records.len()
    &&& m.records[at].identity.valid()
    &&& m.records[at].location.valid()
    &&& m.records[at].record_version <= MAX_STORED
    &&& LedgerView { records: m.records.remove(at), ..m }.wf()
}

pub proof fn lemma_wf_but_version(m: LedgerView, at: int)
    requires
        m.wf(),
        0 <= at < m.records.len(),
    ensures
        wf_but_version(m, at),
{
    assert(ledger::record_ok(m.records[at]));
    let others = m.records.remove(at);
    assert forall|i: int| 0 <= i < others.len() implies ledger::record_ok(#[trigger] others[i]) by {
        if i < at {
            assert(others[i] == m.records[i]);
        } else {
            assert(others[i] == m.records[i + 1]);
        }
    }
}

/// The numbers of a well-formed catalog end with the greatest.
pub proof fn lemma_latest(m: LedgerView)
    requires
        ledger::events_ascend(m.events),
        ledger::deliveries_ascend(m.deliveries),
    ensures
        forall|i: int| 0 <= i < m.events.len() ==> (#[trigger] m.events[i]).sequence
            <= m.latest_sequence(),
        forall|i: int| 0 <= i < m.deliveries.len() ==> (#[trigger] m.deliveries[i]).id
            <= m.latest_delivery(),
{
    assert forall|i: int| 0 <= i < m.events.len() implies (#[trigger] m.events[i]).sequence
        <= m.latest_sequence() by {
        if i < m.events.len() - 1 {
            assert(m.events[i].sequence < m.events[m.events.len() - 1].sequence);
        }
    }
    assert forall|i: int| 0 <= i < m.deliveries.len() implies (#[trigger] m.deliveries[i]).id
        <= m.latest_delivery() by {
        if i < m.deliveries.len() - 1 {
            assert(m.deliveries[i].id < m.deliveries[m.deliveries.len() - 1].id);
        }
    }
}

/// A change that is not refused keeps the catalog well-formed.
pub proof fn lemma_changed_wf(m: LedgerView, at: int, change: ChangeView)
    requires
        wf_but_version(m, at),
        change.location.valid(),
        change_refusal(m, m.records[at].record_version, change.event_id) is None,
    ensures
        changed(m, at, change).wf(),
        changed(m, at, change).latest_sequence() == m.latest_sequence() + 1,
        changed(m, at, change).latest_delivery() == m.latest_delivery() + m.subscriptions.len(),
{
    let next = changed(m, at, change);
    let event = change_event(m, at, change);
    let others = m.records.remove(at);
    let entries = fan_out(m.subscriptions, event, m.latest_delivery());
    let w = LedgerView { records: others, ..m };
    lemma_latest(m);
    assert forall|i: int| 0 <= i < next.records.len() implies ledger::record_ok(
        #[trigger] next.records[i],
    ) by {
        if i < at {
            assert(next.records[i] == others[i]);
            assert(ledger::record_ok(w.records[i]));
        } else if i > at {
            assert(next.records[i] == others[i - 1]);
            assert(ledger::record_ok(w.records[i - 1]));
        }
    }
    assert forall|i: int| 0 <= i < next.events.len() implies ledger::event_ok(
        #[trigger] next.events[i],
    ) by {
        if i < m.events.len() {
            assert(ledger::event_ok(w.events[i]));
        }
    }
    assert forall|i: int, j: int| 0 <= i < j < next.events.len() implies (
    #[trigger] next.events[i]).sequence < (#[trigger] next.events[j]).sequence by {
        if j < m.events.len() {
            assert(m.events[i].sequence < m.events[j].sequence);
        }
    }
    assert forall|i: int| 0 <= i < next.deliveries.len() implies ledger::delivery_ok(
        #[trigger] next.deliveries[i],
    ) by {
        if i < m.deliveries.len() {
            assert(ledger::delivery_ok(w.deliveries[i]));
        } else {
            assert(next.deliveries[i] == entries[i - m.deliveries.len()]);
        }
    }
    assert forall|i: int, j: int| 0 <= i < j < next.deliveries.len() implies (
    #[trigger] next.deliveries[i]).id < (#[trigger] next.deliveries[j]).id by {
        if j < m.deliveries.len() {
            assert(m.deliveries[i].id < m.deliveries[j].id);
        } else {
            assert(next.deliveries[j] == entries[j - m.deliveries.len()]);
            if i >= m.deliveries.len() {
                assert(next.deliveries[i] == entries[i - m.deliveries.len()]);
            }
        }
    }
    assert(next.revisions == w.revisions && next.sources == w.sources && next.observations
        == w.observations && next.source_records == w.source_records && next.candidates
        == w.candidates && next.scrubs == w.scrubs && next.subscriptions == w.subscriptions);
    if m.subscriptions.len() > 0 {
        assert(next.deliveries.last() == entries[m.subscriptions.len() - 1]);
    } else {
        assert(next.deliveries =~= m.deliveries);
    }
}

/// How many queue entries a change takes, together with the change before it.
spec fn entries_for(prior: Option<EventId>, subscriptions: nat) -> nat {
    if prior is Some {
        subscriptions + subscriptions
    } else {
        subscriptions
    }
}

/// The queue entry of `event` for `subscription`.
pub(crate) fn new_delivery(
    subscription: &SubscriptionRow,
    event: &ArchiveEvent,
    id: u64,
    is_snapshot: bool,
) -> (result: DeliveryRow)
    ensures
        result@ == delivery_for(subscription@, event@, id, is_snapshot),
{
    DeliveryRow {
        id,
        subscription_id: subscription.id,
        event_id: event.id,
        event_sequence: if is_snapshot {
            None
        } else {
            Some(event.sequence)
        },
        record_id: event.record_id,
        record_version: event.record_version,
        kind: event.kind,
        revision_id: event.revision_id,
        location: copy_location(&event.location),
        is_snapshot,
        state: initial_delivery_state(
            subscription.accepts_moves,
            subscription.accepts_tombstones,
            event.kind,
        ),
        attempts: 0,
        lease_token: None,
        lease_expires_at_ms: None,
        not_before_ms: 0,
        settled_at_ms: None,
        settlement_reason: None,
        created_at_ms: event.committed_at_ms,
    }
}

impl Catalog {
    /// Queues `event` for every subscription.
    pub(crate) fn enqueue_event_for_active_subscriptions(&mut self, event: &ArchiveEvent)
        requires
            old(self)@.latest_delivery() + old(self)@.subscriptions.len() <= MAX_STORED,
        ensures
            final(self)@ == (LedgerView {
                deliveries: old(self)@.deliveries + fan_out(
                    old(self)@.subscriptions,
                    event@,
                    old(self)@.latest_delivery(),
                ),
                ..old(self)@
            }),
    {
        let after: u64 = self.latest_delivery_id();
        let ghost entries = fan_out(self@.subscriptions, event@, after);
        let mut i: usize = 0;
        assert(entries.take(0) =~= Seq::<DeliveryView>::empty());
        assert(self@.deliveries + entries.take(0) =~= self@.deliveries);
        while i < self.subscriptions.len()
            invariant
                i <= self.subscriptions@.len(),
                self@ == (LedgerView {
                    deliveries: old(self)@.deliveries + entries.take(i as int),
                    ..old(self)@
                }),
                entries == fan_out(old(self)@.subscriptions, event@, after),
                after + self.subscriptions@.len() <= MAX_STORED,
            decreases self.subscriptions@.len() - i,
        {
            let ghost before = *self;
            let entry = new_delivery(&self.subscriptions[i], event, after + 1 + i as u64, false);
            self.deliveries.push(entry);
            proof {
                text::lemma_views_push(before.deliveries@, entry);
                assert(self.subscriptions@[i as int]@ == self@.subscriptions[i as int]);
                assert(entry@ == entries[i as int]);
                assert(entries.take(i + 1) =~= entries.take(i as int).push(entries[i as int]));
                assert(old(self)@.deliveries + entries.take(i + 1) =~= (old(self)@.deliveries
                    + entries.take(i as int)).push(entries[i as int]));
            }
            i += 1;
        }
        assert(entries.take(entries.len() as int) =~= entries);
    }

    /// Why a change of a record at this version is refused, `ahead` events further on, the last
    /// of them with id `prior`.
    fn check_change(
        &self,
        version: u64,
        event_id: EventId,
        prior: Option<EventId>,
    ) -> (result: Result<(), CatalogError>)
        requires
            version <= MAX_STORED + 1,
            self.wf(),
        ensures
            ({
                let ahead: int = if prior is Some {
                    1
                } else {
                    0
                };
                match result {
                    Ok(_) => {
                        &&& version + 1 <= MAX_STORED
                        &&& !self@.event_id_used(event_id)
                        &&& prior != Some(event_id)
                        &&& self@.latest_sequence() + ahead + 1 <= MAX_STORED
                        &&& self@.latest_delivery() + entries_for(prior, self@.subscriptions.len())
                            <= MAX_STORED
                    },
                    Err(error) => {
                        if version + 1 > MAX_STORED {
                            error@ == CatalogErrorView::Corrupt(
                                "record version"@ + " exceeds SQLite INTEGER range"@,
                            )
                        } else if self@.event_id_used(event_id) || prior == Some(event_id) {
                            error@ == CatalogErrorView::Constraint(
                                ConstraintFault::DuplicateIdentifier,
                            )
                        } else {
                            &&& error@ == CatalogErrorView::Constraint(
                                ConstraintFault::NumberExhausted,
                            )
                            &&& (self@.latest_sequence() + ahead + 1 > MAX_STORED
                                || self@.latest_delivery() + entries_for(
                                prior,
                                self@.subscriptions.len(),
                            ) > MAX_STORED)
                        }
                    },
                }
            }),
    {
        if version >= MAX_STORED {
            return Err(
                CatalogError::Corrupt(
                    text::concat2("record version", " exceeds SQLite INTEGER range"),
                ),
            );
        }
        let ahead: u64 = if prior.is_some() {
            1
        } else {
            0
        };
        let repeated = match prior {
            Some(prior) => prior == event_id,
            None => false,
        };
        if repeated || self.event_id_used(event_id) {
            return Err(CatalogError::Constraint(ConstraintFault::DuplicateIdentifier));
        }
        let latest: u64 = self.last_sequence();
        let count: u128 = self.subscriptions.len() as u128;
        let entries: u128 = if prior.is_some() {
            count + count
        } else {
            count
        };
        proof {
            lemma_latest(self@);
            if self@.events.len() > 0 {
                assert(ledger::event_ok(self@.events[self@.events.len() - 1]));
            }
        }
        if latest as u128 + ahead as u128 + 1 > MAX_STORED as u128 || self.latest_delivery_id() as u128
            + entries > MAX_STORED as u128 {
            return Err(CatalogError::Constraint(ConstraintFault::NumberExhausted));
        }
        Ok(())
    }

    /// Commits a change that nothing refuses.
    pub(crate) fn apply_change(
        &mut self,
        at: usize,
        event_id: EventId,
        kind: EventKind,
        revision_id: Option<RevisionId>,
        location: &LogicalLocation,
        state: RecordState,
        at_ms: i64,
    ) -> (result: ArchiveEvent)
        requires
            wf_but_version(old(self)@, at as int),
            change_refusal(old(self)@, old(self)@.records[at as int].record_version, event_id)
                is None,
        ensures
            ({
                let change = ChangeView {
                    event_id,
                    kind,
                    revision_id,
                    location: location@,
                    state,
                    at_ms,
                };
                &&& final(self)@ == changed(old(self)@, at as int, change)
                &&& result@ == change_event(old(self)@, at as int, change)
                &&& final(self).wf()
                &&& final(self)@.latest_sequence() == old(self)@.latest_sequence() + 1
                &&& final(self)@.latest_delivery() == old(self)@.latest_delivery()
                    + old(self)@.subscriptions.len()
            }),
    {
        let ghost before = *self;
        let ghost change = ChangeView {
            event_id,
            kind,
            revision_id,
            location: location@,
            state,
            at_ms,
        };
        proof {
            use_type_invariant(location);
            lemma_changed_wf(self@, at as int, change);
        }
        let next_version: u64 = self.records[at].record_version + 1;
        let event = ArchiveEvent {
            id: event_id,
            sequence: self.last_sequence() + 1,
            record_id: self.records[at].id,
            record_version: next_version,
            kind,
            revision_id,
            location: Some(location.clone()),
            committed_at_ms: at_ms,
        };
        let row = RecordRow {
            id: self.records[at].id,
            identity: self.records[at].identity.clone(),
            location: location.clone(),
            record_version: next_version,
            state,
            current_revision_id: revision_id,
            created_at_ms: self.records[at].created_at_ms,
            updated_at_ms: at_ms,
        };
        self.records.set(at, row);
        let copy = event.clone();
        self.events.push(copy);
        proof {
            text::lemma_views_update(before.records@, at as int, row);
            text::lemma_views_push(before.events@, copy);
        }
        self.enqueue_event_for_active_subscriptions(&event);
        assert(self@ =~= changed(before@, at as int, change));
        event
    }

    /// Makes this revision of this record known, `existing` being its position where it is.
    fn apply_revision(
        &mut self,
        existing: Option<usize>,
        record_id: RecordId,
        revision: CanonicalRevision,
        at_ms: i64,
        fresh: RevisionId,
    ) -> (result: RevisionId)
        requires
            revision@.byte_length <= MAX_STORED,
            match existing {
                Some(at) => at < old(self).revisions@.len() && ledger::find_first(
                    old(self)@.revisions,
                    ledger::has_revision(record_id, revision@),
                ) == Some(at as int),
                None => ledger::find_first(
                    old(self)@.revisions,
                    ledger::has_revision(record_id, revision@),
                ) is None && ledger::find_first(
                    old(self)@.revisions,
                    ledger::has_revision_id(fresh),
                ) is None,
            },
        ensures
            know_revision(old(self)@, record_id, revision@, at_ms, fresh) == Ok::<
                (LedgerView, RevisionId),
                CatalogErrorView,
            >((final(self)@, result)),
    {
        let ghost before = *self;
        match existing {
            Some(at) => {
                let row = RevisionRow {
                    id: self.revisions[at].id,
                    record_id: self.revisions[at].record_id,
                    revision: self.revisions[at].revision,
                    first_observed_at_ms: self.revisions[at].first_observed_at_ms,
                    last_observed_at_ms: at_ms,
                };
                let id = row.id;
                self.revisions.set(at, row);
                proof {
                    text::lemma_views_update(before.revisions@, at as int, row);
                }
                id
            },
            None => {
                let row = RevisionRow {
                    id: fresh,
                    record_id,
                    revision,
                    first_observed_at_ms: at_ms,
                    last_observed_at_ms: at_ms,
                };
                self.revisions.push(row);
                proof {
                    text::lemma_views_push(before.revisions@, row);
                }
                fresh
            },
        }
    }
}

/// Behind a change exactly the changed event's id is used in addition.
proof fn lemma_used_after(m: LedgerView, at: int, change: ChangeView, id: EventId)
    ensures
        changed(m, at, change).event_id_used(id) == (m.event_id_used(id) || id == change.event_id),
{
    let next = changed(m, at, change);
    let entries = fan_out(m.subscriptions, change_event(m, at, change), m.latest_delivery());
    if m.event_id_used(id) {
        if exists|i: int| 0 <= i < m.events.len() && (#[trigger] m.events[i]).id == id {
            let i = choose|i: int| 0 <= i < m.events.len() && (#[trigger] m.events[i]).id == id;
            assert(next.events[i].id == id);
        } else {
            let i = choose|i: int|
                0 <= i < m.deliveries.len() && (#[trigger] m.deliveries[i]).event_id == id;
            assert(next.deliveries[i].event_id == id);
        }
    } else if id == change.event_id {
        assert(next.events[m.events.len() as int].id == id);
    } else {
        assert forall|i: int| 0 <= i < next.events.len() implies (#[trigger] next.events[i]).id
            != id by {
            if i < m.events.len() {
                assert(m.events[i].id != id);
            }
        }
        assert forall|i: int| 0 <= i < next.deliveries.len() implies (
        #[trigger] next.deliveries[i]).event_id != id by {
            if i < m.deliveries.len() {
                assert(m.deliveries[i].event_id != id);
            } else {
                assert(next.deliveries[i] == entries[i - m.deliveries.len()]);
            }
        }
    }
}

/// Knowing a revision keeps a catalog well-formed.
proof fn lemma_know_revision_wf(
    m: LedgerView,
    record_id: RecordId,
    revision: RevisionView,
    at_ms: i64,
    fresh: RevisionId,
)
    requires
        revision.digest.len() == 32,
    ensures
        match know_revision(m, record_id, revision, at_ms, fresh) {
            Ok((next, id)) => {
                &&& next.records == m.records
                &&& next.events == m.events
                &&& next.deliveries == m.deliveries
                &&& next.subscriptions == m.subscriptions
                &&& (forall|i: int|
                    0 <= i < m.revisions.len() ==> ledger::revision_ok(#[trigger] m.revisions[i]))
                    ==> (forall|i: int|
                    0 <= i < next.revisions.len() ==> ledger::revision_ok(
                        #[trigger] next.revisions[i],
                    ))
                &&& next == (LedgerView { revisions: next.revisions, ..m })
            },
            Err(_) => true,
        },
{
    ledger::lemma_find_first(m.revisions, ledger::has_revision(record_id, revision));
    match know_revision(m, record_id, revision, at_ms, fresh) {
        Ok((next, id)) => {
            if forall|i: int|
                0 <= i < m.revisions.len() ==> ledger::revision_ok(#[trigger] m.revisions[i]) {
                assert forall|i: int| 0 <= i < next.revisions.len() implies ledger::revision_ok(
                    #[trigger] next.revisions[i],
                ) by {
                    if i < m.revisions.len() {
                        assert(ledger::revision_ok(m.revisions[i]));
                    }
                }
            }
        },
        Err(_) => {},
    }
}

/// An accepted observation keeps the catalog well-formed.
pub proof fn lemma_observe_wf(
    m: LedgerView,
    identity: IdentityView,
    location: LocationView,
    revision: RevisionView,
    at_ms: i64,
    ids: ObservationIds,
)
    requires
        m.wf(),
        identity.valid(),
        location.valid(),
        revision.digest.len() == 32,
    ensures
        observe(m, identity, location, revision, at_ms, ids) matches Ok((next, events))
            ==> next.wf(),
{
    ledger::lemma_find_first(m.records, ledger::has_identity(identity));
    let at = match m.record_with(identity) {
        Some(at) => at,
        None => m.records.len() as int,
    };
    let base = match m.record_with(identity) {
        Some(_) => m,
        None => LedgerView {
            records: m.records.push(unborn(ids.record_id, identity, location, at_ms)),
            ..m
        },
    };
    if let Ok((next, events)) = observe(m, identity, location, revision, at_ms, ids) {
        match m.record_with(identity) {
            Some(_) => {
                lemma_wf_but_version(m, at);
            },
            None => {
                assert(base.records.remove(at) =~= m.records);
            },
        }
        let record = base.records[at];
        let restores = record.state == RecordState::Tombstoned;
        let restoration = ChangeView {
            event_id: ids.first_event,
            kind: EventKind::RecordRestored,
            revision_id: record.current_revision_id,
            location,
            state: RecordState::Active,
            at_ms,
        };
        let m1 = if restores {
            changed(base, at, restoration)
        } else {
            base
        };
        if restores {
            lemma_changed_wf(base, at, restoration);
            lemma_wf_but_version(m1, at);
        }
        lemma_know_revision_wf(m1, record.id, revision, at_ms, ids.revision_id);
        let known = know_revision(m1, record.id, revision, at_ms, ids.revision_id);
        let m2 = known->Ok_0.0;
        let event_id = if restores {
            ids.second_event
        } else {
            ids.first_event
        };
        assert(LedgerView { records: m2.records.remove(at), ..m2 }.wf()) by {
            assert(LedgerView { records: m1.records.remove(at), ..m1 }.wf());
        }
        assert(wf_but_version(m2, at));
        if base.revision_bytes(record.current_revision_id) != Some(revision) {
            lemma_changed_wf(
                m2,
                at,
                ChangeView {
                    event_id,
                    kind: EventKind::RevisionCommitted,
                    revision_id: Some(known->Ok_0.1),
                    location,
                    state: RecordState::Active,
                    at_ms,
                },
            );
        } else if m2.records[at].location != location {
            lemma_changed_wf(
                m2,
                at,
                ChangeView {
                    event_id,
                    kind: EventKind::LocationChanged,
                    revision_id: record.current_revision_id,
                    location,
                    state: RecordState::Active,
                    at_ms,
                },
            );
        } else {
            assert(m1.wf());
        }
    }
}

/// What an operation on the catalog came to, against what it should: the catalog and the result,
/// or the error and the catalog as it was.
pub open spec fn events_outcome(
    expected: Result<(LedgerView, Seq<EventView>), CatalogErrorView>,
    before: LedgerView,
    after: LedgerView,
    result: Result<Vec<ArchiveEvent>, CatalogError>,
) -> bool {
    match expected {
        Ok((next, events)) => {
            &&& result matches Ok(list)
            &&& text::views(list@) == events
            &&& after == next
        },
        Err(expected_error) => {
            &&& result matches Err(error)
            &&& error@ == expected_error
            &&& after == before
        },
    }
}

impl Catalog {
    /// Observes one verified present record, using these identifiers where new ones are needed.
    /// A refusal leaves the catalog as it was.
    #[verifier::rlimit(60)]
    pub fn observe_present_with(
        &mut self,
        identity: &RecordIdentity,
        location: &LogicalLocation,
        revision: CanonicalRevision,
        at_ms: i64,
        ids: ObservationIds,
    ) -> (result: Result<Vec<ArchiveEvent>, CatalogError>)
        requires
            old(self).wf(),
        ensures
            final(self).wf(),
            consistency::consistent(old(self)@) ==> consistency::consistent(final(self)@),
            events_outcome(
                observe(old(self)@, identity@, location@, revision@, at_ms, ids),
                old(self)@,
                final(self)@,
                result,
            ),
    {
        let ghost expected = observe(self@, identity@, location@, revision@, at_ms, ids);
        assert(consistency::consistent(self@) && expected is Ok ==> consistency::consistent(
            expected->Ok_0.0,
        )) by {
            if consistency::consistent(self@) {
                consistency::law_observe_keeps_consistent(
                    self@,
                    identity@,
                    location@,
                    revision@,
                    at_ms,
                    ids,
                );
            }
        }
        proof {
            use_type_invariant(identity);
            use_type_invariant(location);
        }
        let found = self.find_record(identity);
        if found.is_none() && self.find_record_by_id(ids.record_id).is_some() {
            return Err(CatalogError::Constraint(ConstraintFault::DuplicateIdentifier));
        }
        let ghost m = self@;
        let ghost base = match found {
            Some(_) => m,
            None => LedgerView {
                records: m.records.push(unborn(ids.record_id, identity@, location@, at_ms)),
                ..m
            },
        };
        let ghost place: int = match found {
            Some(at) => at as int,
            None => m.records.len() as int,
        };
        let ghost record = base.records[place];
        proof {
            match found {
                Some(at) => {
                    lemma_wf_but_version(m, place);
                    assert(ledger::record_ok(m.records[place]));
                },
                None => {
                    assert(base.records.remove(place) =~= m.records);
                },
            }
            assert(wf_but_version(base, place));
            assert(observe(m, identity@, location@, revision@, at_ms, ids) == observe_at(
                base,
                place,
                location@,
                revision@,
                at_ms,
                ids,
            ));
        }
        let tombstoned: bool = match found {
            Some(at) => self.records[at].state == RecordState::Tombstoned,
            None => false,
        };
        let version: u64 = match found {
            Some(at) => self.records[at].record_version,
            None => 0,
        };
        let record_id: RecordId = match found {
            Some(at) => self.records[at].id,
            None => ids.record_id,
        };
        let current: Option<RevisionId> = match found {
            Some(at) => self.records[at].current_revision_id,
            None => None,
        };
        assert(record.state == RecordState::Tombstoned <==> tombstoned);
        assert(record.record_version == version && record.id == record_id
            && record.current_revision_id == current);
        let ghost restoration = ChangeView {
            event_id: ids.first_event,
            kind: EventKind::RecordRestored,
            revision_id: current,
            location: location@,
            state: RecordState::Active,
            at_ms,
        };
        if tombstoned {
            match self.check_change(version, ids.first_event, None) {
                Ok(_) => {},
                Err(error) => {
                    return Err(error);
                },
            }
        }
        let ghost m1 = if tombstoned {
            changed(base, place, restoration)
        } else {
            base
        };
        proof {
            if tombstoned {
                lemma_changed_wf(base, place, restoration);
                lemma_wf_but_version(m1, place);
            }
            assert(m1.revisions == m.revisions);
            assert(m1.records[place].id == record_id);
        }
        if revision.byte_length() > MAX_STORED {
            return Err(
                CatalogError::Corrupt(
                    text::concat2("revision byte length", " exceeds SQLite INTEGER range"),
                ),
            );
        }
        let existing = self.find_revision(record_id, &revision);
        if existing.is_none() && self.find_revision_by_id(ids.revision_id).is_some() {
            return Err(CatalogError::Constraint(ConstraintFault::DuplicateIdentifier));
        }
        let ghost known = know_revision(m1, record_id, revision@, at_ms, ids.revision_id);
        let ghost m2 = known->Ok_0.0;
        let digest = revision.digest();
        proof {
            assert(revision@.digest.len() == 32);
            lemma_know_revision_wf(m1, record_id, revision@, at_ms, ids.revision_id);
            assert(known is Ok);
            assert(m2.records == m1.records);
        }
        let same_revision: bool = match self.revision_bytes(current) {
            Some(bytes) => bytes.same(&revision),
            None => false,
        };
        assert(same_revision == (base.revision_bytes(current) == Some(revision@)));
        let moved: bool = match found {
            Some(at) => !tombstoned && !self.records[at].location.same(location),
            None => false,
        };
        assert(moved == (m2.records[place].location != location@));
        let event_id: EventId = if tombstoned {
            ids.second_event
        } else {
            ids.first_event
        };
        let next_version: u64 = if tombstoned {
            version + 1
        } else {
            version
        };
        let prior: Option<EventId> = if tombstoned {
            Some(ids.first_event)
        } else {
            None
        };
        assert(m2.records[place].record_version == next_version);
        if !same_revision || moved {
            let checked = self.check_change(next_version, event_id, prior);
            proof {
                if tombstoned {
                    lemma_used_after(base, place, restoration, event_id);
                }
                assert(m2.event_id_used(event_id) == (m.event_id_used(event_id) || prior == Some(
                    event_id,
                )));
                if checked is Ok {
                    assert(change_refusal(m2, next_version, event_id) is None);
                } else {
                    assert(change_refusal(m2, next_version, event_id) == Some(checked->Err_0@));
                }
            }
            match checked {
                Ok(_) => {},
                Err(error) => {
                    return Err(error);
                },
            }
        }
        let at: usize = match found {
            Some(at) => at,
            None => {
                let ghost before = *self;
                let row = RecordRow {
                    id: ids.record_id,
                    identity: identity.clone(),
                    location: location.clone(),
                    record_version: 0,
                    state: RecordState::Active,
                    current_revision_id: None,
                    created_at_ms: at_ms,
                    updated_at_ms: at_ms,
                };
                self.records.push(row);
                proof {
                    text::lemma_views_push(before.records@, row);
                }
                self.records.len() - 1
            },
        };
        assert(self@ == base && at == place);
        let mut events: Vec<ArchiveEvent> = Vec::new();
        if tombstoned {
            let event = self.apply_change(
                at,
                ids.first_event,
                EventKind::RecordRestored,
                current,
                location,
                RecordState::Active,
                at_ms,
            );
            events.push(event);
            assert(text::views(events@) =~= seq![event@]);
        }
        assert(self@ == m1);
        let ghost list1 = text::views(events@);
        let revision_id = self.apply_revision(existing, record_id, revision, at_ms, ids.revision_id);
        assert(self@ == m2);
        proof {
            if !tombstoned {
                assert(list1 =~= Seq::<EventView>::empty());
            }
            assert(LedgerView { records: m2.records.remove(place), ..m2 }.wf()) by {
                assert(LedgerView { records: m1.records.remove(place), ..m1 }.wf());
            }
            assert(wf_but_version(m2, place));
        }
        if !same_revision {
            let event = self.apply_change(
                at,
                event_id,
                EventKind::RevisionCommitted,
                Some(revision_id),
                location,
                RecordState::Active,
                at_ms,
            );
            let ghost before = events@;
            events.push(event);
            proof {
                text::lemma_views_push(before, event);
            }
        } else if moved {
            let event = self.apply_change(
                at,
                event_id,
                EventKind::LocationChanged,
                current,
                location,
                RecordState::Active,
                at_ms,
            );
            let ghost before = events@;
            events.push(event);
            proof {
                text::lemma_views_push(before, event);
            }
        } else {
            proof {
                assert(found is Some);
                if tombstoned {
                    assert(m1.wf());
                } else {
                    assert(m1.wf());
                }
                assert(m2.wf());
            }
        }
        Ok(events)
    }
}

/// The current state of one cataloged record.
#[derive(Debug, Eq, PartialEq)]
pub struct CurrentRecord {
    pub id: RecordId,
    pub identity: RecordIdentity,
    pub location: LogicalLocation,
    pub record_version: u64,
    pub state: RecordState,
    pub revision_id: Option<RevisionId>,
    pub revision: Option<CanonicalRevision>,
}

#[verifier::ext_equal]
pub struct CurrentRecordView {
    pub id: RecordId,
    pub identity: IdentityView,
    pub location: LocationView,
    pub record_version: u64,
    pub state: RecordState,
    pub revision_id: Option<RevisionId>,
    pub revision: Option<RevisionView>,
}

impl View for CurrentRecord {
    type V = CurrentRecordView;

    open spec fn view(&self) -> CurrentRecordView {
        CurrentRecordView {
            id: self.id,
            identity: self.identity@,
            location: self.location@,
            record_version: self.record_version,
            state: self.state,
            revision_id: self.revision_id,
            revision: text::view_option(self.revision),
        }
    }
}

/// The current state of the record with this identity.
pub open spec fn current(m: LedgerView, identity: IdentityView) -> Option<CurrentRecordView> {
    match m.record_with(identity) {
        Some(at) => Some(
            CurrentRecordView {
                id: m.records[at].id,
                identity: m.records[at].identity,
                location: m.records[at].location,
                record_version: m.records[at].record_version,
                state: m.records[at].state,
                revision_id: m.records[at].current_revision_id,
                revision: m.revision_bytes(m.records[at].current_revision_id),
            },
        ),
        None => None,
    }
}

/// Whether an event comes after this sequence number.
pub open spec fn is_after(sequence: u64) -> spec_fn(EventView) -> bool {
    |event: EventView| event.sequence > sequence
}

/// The events behind this sequence number, in order.
pub open spec fn events_behind(events: Seq<EventView>, sequence: u64) -> Seq<EventView> {
    events.filter(is_after(sequence))
}

/// The events behind a number are exactly those with a greater one, in archive order and each once: all
/// of them where the number is before the first, and none where it is the last.
pub proof fn law_events_behind_are_the_later_ones(events: Seq<EventView>, sequence: u64)
    requires
        ledger::events_ascend(events),
    ensures
        forall|i: int|
            0 <= i < events.len() ==> ((#[trigger] events[i]).sequence > sequence
                <==> events_behind(events, sequence).contains(events[i])),
        forall|e: EventView|
            events_behind(events, sequence).contains(e) ==> #[trigger] events.contains(e)
                && e.sequence > sequence,
        forall|i: int, j: int|
            0 <= i < j < events_behind(events, sequence).len() ==> (
            #[trigger] events_behind(events, sequence)[i]).sequence < (
            #[trigger] events_behind(events, sequence)[j]).sequence,
        (forall|i: int| 0 <= i < events.len() ==> (#[trigger] events[i]).sequence == i + 1)
            && sequence <= events.len() ==> events_behind(events, sequence) == events.skip(
            sequence as int,
        ),
{
    let behind = events_behind(events, sequence);
    assert forall|i: int| 0 <= i < events.len() implies ((#[trigger] events[i]).sequence > sequence
        <==> behind.contains(events[i])) by {
        if events[i].sequence > sequence {
            events.lemma_filter_contains(is_after(sequence), i);
        } else if behind.contains(events[i]) {
            events.lemma_filter_contains_rev(is_after(sequence), events[i]);
            let k = choose|k: int| 0 <= k < behind.len() && behind[k] == events[i];
            events.lemma_filter_pred(is_after(sequence), k);
        }
    }
    assert forall|e: EventView| behind.contains(e) implies #[trigger] events.contains(e)
        && e.sequence > sequence by {
        events.lemma_filter_contains_rev(is_after(sequence), e);
        let k = choose|k: int| 0 <= k < behind.len() && behind[k] == e;
        events.lemma_filter_pred(is_after(sequence), k);
    }
    lemma_behind_is_a_suffix(events, sequence);
    let from = choose|from: int|
        0 <= from <= events.len() && behind == #[trigger] events.skip(from);
    if (forall|i: int| 0 <= i < events.len() ==> (#[trigger] events[i]).sequence == i + 1)
        && sequence <= events.len() {
        if from < sequence {
            assert(behind[0] == events[from]);
            events.lemma_filter_pred(is_after(sequence), 0);
        } else if from > sequence {
            assert(behind.contains(events[sequence as int]));
            let k = choose|k: int| 0 <= k < behind.len() && behind[k] == events[sequence as int];
            assert(behind[k] == events[from + k]);
        }
    }
}

/// Among ascending events, those behind a number are the last ones.
proof fn lemma_behind_is_a_suffix(events: Seq<EventView>, sequence: u64)
    requires
        ledger::events_ascend(events),
    ensures
        exists|from: int|
            0 <= from <= events.len() && events_behind(events, sequence) == #[trigger] events.skip(
                from,
            ),
    decreases events.len(),
{
    if events.len() == 0 {
        assert(events_behind(events, sequence) =~= events.skip(0));
    } else {
        let front = events.drop_last();
        let last = events.last();
        lemma_behind_is_a_suffix(front, sequence);
        let from = choose|from: int|
            0 <= from <= front.len() && events_behind(front, sequence) == #[trigger] front.skip(
                from,
            );
        assert(events =~= front.push(last));
        front.lemma_filter_push(last, is_after(sequence));
        if last.sequence > sequence {
            assert(events_behind(events, sequence) =~= events.skip(from));
        } else {
            if from < front.len() {
                assert(events_behind(front, sequence)[0] == front[from]);
                front.lemma_filter_pred(is_after(sequence), 0);
                assert(events[from].sequence < events[events.len() - 1].sequence);
            }
            assert(events_behind(events, sequence) =~= events.skip(events.len() as int));
        }
    }
}

/// What a deletion came to, against what it should.
pub open spec fn event_outcome(
    expected: Result<(LedgerView, Option<EventView>), CatalogErrorView>,
    before: LedgerView,
    after: LedgerView,
    result: Result<Option<ArchiveEvent>, CatalogError>,
) -> bool {
    match expected {
        Ok((next, event)) => {
            &&& result matches Ok(found)
            &&& text::view_option(found) == event
            &&& after == next
        },
        Err(expected_error) => {
            &&& result matches Err(error)
            &&& error@ == expected_error
            &&& after == before
        },
    }
}

impl Catalog {
    /// Observes one verified present record at a given time. The caller owns source safety and
    /// stability; the catalog owns identity, version and event ordering.
    pub fn observe_present_at(
        &mut self,
        identity: &RecordIdentity,
        location: &LogicalLocation,
        revision: CanonicalRevision,
        committed_at_ms: i64,
    ) -> (result: Result<Vec<ArchiveEvent>, CatalogError>)
        requires
            old(self).wf(),
        ensures
            final(self).wf(),
            consistency::consistent(old(self)@) ==> consistency::consistent(final(self)@),
            exists|ids: ObservationIds|
                drawn(ids) && events_outcome(
                    #[trigger] observe(
                        old(self)@,
                        identity@,
                        location@,
                        revision@,
                        committed_at_ms,
                        ids,
                    ),
                    old(self)@,
                    final(self)@,
                    result,
                ),
    {
        let ids = ObservationIds::draw();
        self.observe_present_with(identity, location, revision, committed_at_ms, ids)
    }

    /// Observes one verified present record at the time of the call.
    pub fn observe_present(
        &mut self,
        identity: &RecordIdentity,
        location: &LogicalLocation,
        revision: CanonicalRevision,
    ) -> (result: Result<Vec<ArchiveEvent>, CatalogError>)
        requires
            old(self).wf(),
        ensures
            final(self).wf(),
            consistency::consistent(old(self)@) ==> consistency::consistent(final(self)@),
            (final(self)@ == old(self)@ && clock_refused(result)) || exists|
                at_ms: i64,
                ids: ObservationIds,
            |
                at_ms >= 0 && drawn(ids) && events_outcome(
                    #[trigger] observe(
                        old(self)@,
                        identity@,
                        location@,
                        revision@,
                        at_ms,
                        ids,
                    ),
                    old(self)@,
                    final(self)@,
                    result,
                ),
    {
        match crate::clock::now_ms() {
            Ok(now) => self.observe_present_at(identity, location, revision, now),
            Err(error) => Err(error),
        }
    }

    /// Records a deletion, using this identifier for its event. Absence by itself never calls
    /// this: the guarded root and grace policy must have accepted it.
    pub fn tombstone_with(
        &mut self,
        identity: &RecordIdentity,
        committed_at_ms: i64,
        event_id: EventId,
    ) -> (result: Result<Option<ArchiveEvent>, CatalogError>)
        requires
            old(self).wf(),
        ensures
            final(self).wf(),
            consistency::consistent(old(self)@) ==> consistency::consistent(final(self)@),
            event_outcome(
                tombstone(old(self)@, identity@, committed_at_ms, event_id),
                old(self)@,
                final(self)@,
                result,
            ),
    {
        let ghost expected = tombstone(self@, identity@, committed_at_ms, event_id);
        assert(consistency::consistent(self@) && expected is Ok ==> consistency::consistent(
            expected->Ok_0.0,
        )) by {
            if consistency::consistent(self@) {
                consistency::law_tombstone_keeps_consistent(
                    self@,
                    identity@,
                    committed_at_ms,
                    event_id,
                );
            }
        }
        let at: usize = match self.find_record(identity) {
            Some(at) => at,
            None => {
                return Ok(None);
            },
        };
        if self.records[at].state == RecordState::Tombstoned {
            return Ok(None);
        }
        match self.tombstone_row(at, committed_at_ms, event_id) {
            Ok(event) => Ok(Some(event)),
            Err(error) => Err(error),
        }
    }

    /// Deletes the record at this position.
    pub(crate) fn tombstone_row(
        &mut self,
        at: usize,
        committed_at_ms: i64,
        event_id: EventId,
    ) -> (result: Result<ArchiveEvent, CatalogError>)
        requires
            old(self).wf(),
            at < old(self)@.records.len(),
        ensures
            final(self).wf(),
            match change_record(
                old(self)@,
                at as int,
                deletion(old(self)@.records[at as int], committed_at_ms, event_id),
            ) {
                Ok((next, event)) => {
                    &&& result matches Ok(made)
                    &&& made@ == event
                    &&& final(self)@ == next
                },
                Err(expected_error) => {
                    &&& result matches Err(error)
                    &&& error@ == expected_error
                    &&& final(self)@ == old(self)@
                },
            },
    {
        assert(ledger::record_ok(self@.records[at as int]));
        match self.check_change(self.records[at].record_version, event_id, None) {
            Ok(_) => {},
            Err(error) => {
                return Err(error);
            },
        }
        proof {
            lemma_wf_but_version(self@, at as int);
        }
        let revision_id = self.records[at].current_revision_id;
        let location = self.records[at].location.clone();
        let event = self.apply_change(
            at,
            event_id,
            EventKind::RecordTombstoned,
            revision_id,
            &location,
            RecordState::Tombstoned,
            committed_at_ms,
        );
        Ok(event)
    }

    /// Records a deletion at a given time.
    pub fn tombstone_at(&mut self, identity: &RecordIdentity, committed_at_ms: i64) -> (result:
        Result<Option<ArchiveEvent>, CatalogError>)
        requires
            old(self).wf(),
        ensures
            final(self).wf(),
            consistency::consistent(old(self)@) ==> consistency::consistent(final(self)@),
            exists|event_id: EventId|
                ident::is_random_form(event_id.id.value) && event_outcome(
                    #[trigger] tombstone(old(self)@, identity@, committed_at_ms, event_id),
                    old(self)@,
                    final(self)@,
                    result,
                ),
    {
        self.tombstone_with(identity, committed_at_ms, EventId::new())
    }

    /// Records a deletion at the time of the call.
    pub fn tombstone(&mut self, identity: &RecordIdentity) -> (result: Result<
        Option<ArchiveEvent>,
        CatalogError,
    >)
        requires
            old(self).wf(),
        ensures
            final(self).wf(),
            consistency::consistent(old(self)@) ==> consistency::consistent(final(self)@),
            (final(self)@ == old(self)@ && clock_refused(result)) || exists|
                at_ms: i64,
                event_id: EventId,
            |
                at_ms >= 0 && ident::is_random_form(event_id.id.value) && event_outcome(
                    #[trigger] tombstone(old(self)@, identity@, at_ms, event_id),
                    old(self)@,
                    final(self)@,
                    result,
                ),
    {
        match crate::clock::now_ms() {
            Ok(now) => self.tombstone_at(identity, now),
            Err(error) => Err(error),
        }
    }

    /// The current state of the record with this identity.
    pub fn current_record(&self, identity: &RecordIdentity) -> (result: Result<
        Option<CurrentRecord>,
        CatalogError,
    >)
        ensures
            result is Ok,
            text::view_option(result->Ok_0) == current(self@, identity@),
    {
        let found = match self.find_record(identity) {
            Some(at) => Some(
                CurrentRecord {
                    id: self.records[at].id,
                    identity: self.records[at].identity.clone(),
                    location: self.records[at].location.clone(),
                    record_version: self.records[at].record_version,
                    state: self.records[at].state,
                    revision_id: self.records[at].current_revision_id,
                    revision: self.revision_bytes(self.records[at].current_revision_id),
                },
            ),
            None => None,
        };
        Ok(found)
    }

    /// The events behind `sequence`, in order.
    pub fn events_after(&self, sequence: u64) -> (result: Result<Vec<ArchiveEvent>, CatalogError>)
        ensures
            match result {
                Ok(list) => sequence <= MAX_STORED && text::views(list@) == events_behind(
                    self@.events,
                    sequence,
                ),
                Err(error) => sequence > MAX_STORED && error@ == CatalogErrorView::Corrupt(
                    "event sequence"@ + " exceeds SQLite INTEGER range"@,
                ),
            },
    {
        match crate::catalog::as_i64(sequence, "event sequence") {
            Ok(_) => {},
            Err(error) => {
                return Err(error);
            },
        }
        let mut list: Vec<ArchiveEvent> = Vec::new();
        let mut i: usize = 0;
        proof {
            assert(self@.events.take(0) =~= Seq::<EventView>::empty());
            reveal(Seq::filter);
            assert(text::views(list@) =~= events_behind(self@.events.take(0), sequence));
        }
        while i < self.events.len()
            invariant
                i <= self.events@.len(),
                text::views(list@) == events_behind(self@.events.take(i as int), sequence),
            decreases self.events@.len() - i,
        {
            proof {
                let taken = self@.events.take(i as int);
                assert(self@.events.take(i + 1) =~= taken.push(self@.events[i as int]));
                taken.lemma_filter_push(self@.events[i as int], is_after(sequence));
            }
            if self.events[i].sequence > sequence {
                let copy = self.events[i].clone();
                proof {
                    text::lemma_views_push(list@, copy);
                }
                list.push(copy);
            }
            i += 1;
        }
        assert(self@.events.take(self@.events.len() as int) =~= self@.events);
        Ok(list)
    }
}

/// Whether the clock gave no usable time.
pub open spec fn clock_refused<T>(result: Result<T, CatalogError>) -> bool {
    &&& result matches Err(error)
    &&& (error@ == CatalogErrorView::ClockBeforeEpoch || error@ == CatalogErrorView::Corrupt(
        "Unix timestamp exceeds i64 milliseconds"@,
    ))
}

} // verus!
