//! What every state of the catalog keeps: unique identities, gapless record versions, deliveries in
//! record order, and bounded leases.
use crate::catalog::{RegistrationView, ScanView, SourceFingerprint, TombstoneGrace, MAX_STORED};
use crate::controller;
use crate::controller::ControlledView;
use crate::delivery::{
    ConfigView, DeliveryState, LeaseToken, LeaseView, SubscriptionId, SubscriptionMode,
};
use crate::domain::{
    DeliveryOutcome, EventId, EventView, IdentityView, LocationView, RecordId, RecordState,
    RevisionId, RevisionView,
};
use crate::leases;
use crate::ledger;
use crate::ledger::{
    DeliveryView, LedgerView, RecordView, RevisionRowView, SourceRecordView, SubscriptionView,
};
use crate::records;
use crate::records::{ChangeView, ObservationIds};
use crate::scan;
use crate::scan::RunView;
use crate::scrub;
use crate::source_fs::SourceView;
use crate::sources;
use crate::subscriptions;
use vstd::prelude::*;

verus! {

/// Whether an event is of this record.
pub open spec fn of_record(id: RecordId) -> spec_fn(EventView) -> bool {
    |event: EventView| event.record_id == id
}

/// How many events a record has.
pub open spec fn event_count(events: Seq<EventView>, id: RecordId) -> nat {
    events.filter(of_record(id)).len()
}

/// No two records share an id or an identity.
pub open spec fn records_distinct(rows: Seq<RecordView>) -> bool {
    forall|i: int, j: int|
        0 <= i < j < rows.len() ==> (#[trigger] rows[i]).id != (#[trigger] rows[j]).id
            && rows[i].identity != rows[j].identity
}

/// No two revisions share an id, nor are they the same bytes of one record.
pub open spec fn revisions_distinct(rows: Seq<RevisionRowView>) -> bool {
    forall|i: int, j: int|
        0 <= i < j < rows.len() ==> (#[trigger] rows[i]).id != (#[trigger] rows[j]).id && !(
        rows[i].record_id == rows[j].record_id && rows[i].revision == rows[j].revision)
}

/// No two events share an id.
pub open spec fn events_distinct(rows: Seq<EventView>) -> bool {
    forall|i: int, j: int|
        0 <= i < j < rows.len() ==> (#[trigger] rows[i]).id != (#[trigger] rows[j]).id
}

/// No two subscriptions share an id.
pub open spec fn subscriptions_distinct(rows: Seq<SubscriptionView>) -> bool {
    forall|i: int, j: int|
        0 <= i < j < rows.len() ==> (#[trigger] rows[i]).id != (#[trigger] rows[j]).id
}

/// Whether two deliveries are of the same version of the same record, or of the same event, for
/// the same subscription.
pub open spec fn same_delivery(a: DeliveryView, b: DeliveryView) -> bool {
    &&& a.subscription_id == b.subscription_id
    &&& (a.event_id == b.event_id || (a.record_id == b.record_id && a.record_version
        == b.record_version))
}

/// Every subscription gets every event, and every version, at most once.
pub open spec fn deliveries_distinct(rows: Seq<DeliveryView>) -> bool {
    forall|i: int, j: int|
        0 <= i < j < rows.len() ==> !same_delivery(#[trigger] rows[i], #[trigger] rows[j])
}

/// Events of one record count its versions: one, two, three and so on.
pub open spec fn versions_gapless(events: Seq<EventView>) -> bool {
    forall|j: int|
        0 <= j < events.len() ==> (#[trigger] events[j]).record_version == event_count(
            events.take(j + 1),
            events[j].record_id,
        )
}

/// The version of every record is the number of its events.
pub open spec fn versions_current(m: LedgerView) -> bool {
    forall|i: int|
        0 <= i < m.records.len() ==> (#[trigger] m.records[i]).record_version == event_count(
            m.events,
            m.records[i].id,
        )
}

/// A record with this id exists.
pub open spec fn record_exists(m: LedgerView, id: RecordId) -> bool {
    exists|i: int| 0 <= i < m.records.len() && (#[trigger] m.records[i]).id == id
}

/// Every event is of a cataloged record.
pub open spec fn events_tied(m: LedgerView) -> bool {
    forall|j: int| 0 <= j < m.events.len() ==> record_exists(m, (#[trigger] m.events[j]).record_id)
}

/// The current bytes of every record are bytes of that record.
pub open spec fn revisions_tied(m: LedgerView) -> bool {
    forall|i: int|
        0 <= i < m.records.len() && (#[trigger] m.records[i]).current_revision_id is Some ==> {
            exists|j: int|
                0 <= j < m.revisions.len() && (#[trigger] m.revisions[j]).id
                    == m.records[i].current_revision_id->Some_0 && m.revisions[j].record_id
                    == m.records[i].id
        }
}

/// A delivery is of a version that a cataloged record has reached, for an existing subscription.
pub open spec fn delivery_tied(m: LedgerView, d: DeliveryView) -> bool {
    &&& exists|i: int|
        0 <= i < m.records.len() && (#[trigger] m.records[i]).id == d.record_id && d.record_version
            <= m.records[i].record_version
    &&& exists|s: int| 0 <= s < m.subscriptions.len() && (#[trigger] m.subscriptions[s]).id
        == d.subscription_id
}

pub open spec fn deliveries_tied(m: LedgerView) -> bool {
    forall|k: int| 0 <= k < m.deliveries.len() ==> delivery_tied(m, #[trigger] m.deliveries[k])
}

/// Nothing that should come first is left behind a lease: every earlier version of a leased
/// delivery's record has reached an outcome that releases later ones.
pub open spec fn leases_in_order(rows: Seq<DeliveryView>) -> bool {
    forall|k: int, p: int|
        0 <= k < rows.len() && 0 <= p < rows.len() && (#[trigger] rows[k]).state
            == DeliveryState::Leased ==> !leases::holds_back(#[trigger] rows[p], rows[k])
}

/// No subscription holds more leases than it may.
pub open spec fn leases_bounded(m: LedgerView) -> bool {
    forall|s: int|
        0 <= s < m.subscriptions.len() ==> leases::count_in(
            m.deliveries,
            (#[trigger] m.subscriptions[s]).id,
            DeliveryState::Leased,
        ) <= m.subscriptions[s].max_active_leases
}

/// What every state of the catalog keeps.
pub open spec fn consistent(m: LedgerView) -> bool {
    &&& records_distinct(m.records)
    &&& revisions_distinct(m.revisions)
    &&& events_distinct(m.events)
    &&& subscriptions_distinct(m.subscriptions)
    &&& deliveries_distinct(m.deliveries)
    &&& versions_gapless(m.events)
    &&& versions_current(m)
    &&& events_tied(m)
    &&& revisions_tied(m)
    &&& deliveries_tied(m)
    &&& leases_in_order(m.deliveries)
    &&& leases_bounded(m)
}

/// A catalog without rows is consistent.
pub proof fn law_empty_is_consistent(m: LedgerView)
    requires
        m.records.len() == 0,
        m.revisions.len() == 0,
        m.events.len() == 0,
        m.subscriptions.len() == 0,
        m.deliveries.len() == 0,
    ensures
        consistent(m),
{
}

proof fn lemma_event_count_push(events: Seq<EventView>, event: EventView, id: RecordId)
    ensures
        event_count(events.push(event), id) == event_count(events, id) + (if event.record_id == id {
            1nat
        } else {
            0nat
        }),
{
    events.lemma_filter_push(event, of_record(id));
}

/// A record without events counts none.
proof fn lemma_no_events(events: Seq<EventView>, id: RecordId)
    requires
        forall|j: int| 0 <= j < events.len() ==> (#[trigger] events[j]).record_id != id,
    ensures
        event_count(events, id) == 0,
    decreases events.len(),
{
    if events.len() == 0 {
        reveal(Seq::filter);
    } else {
        let shorter = events.drop_last();
        assert forall|j: int| 0 <= j < shorter.len() implies (#[trigger] shorter[j]).record_id != id by {
            assert(shorter[j] == events[j]);
        }
        lemma_no_events(shorter, id);
        assert(events =~= shorter.push(events.last()));
        lemma_event_count_push(shorter, events.last(), id);
    }
}

/// Appending queued entries does not change how many deliveries are leased.
proof fn lemma_leased_count_append(
    rows: Seq<DeliveryView>,
    more: Seq<DeliveryView>,
    id: SubscriptionId,
)
    requires
        forall|k: int| 0 <= k < more.len() ==> (#[trigger] more[k]).state != DeliveryState::Leased,
    ensures
        leases::count_in(rows + more, id, DeliveryState::Leased) == leases::count_in(
            rows,
            id,
            DeliveryState::Leased,
        ),
    decreases more.len(),
{
    if more.len() == 0 {
        assert(rows + more =~= rows);
    } else {
        let shorter = more.drop_last();
        assert forall|k: int| 0 <= k < shorter.len() implies (#[trigger] shorter[k]).state
            != DeliveryState::Leased by {
            assert(shorter[k] == more[k]);
        }
        lemma_leased_count_append(rows, shorter, id);
        assert(rows + more =~= (rows + shorter).push(more.last()));
        (rows + shorter).lemma_filter_push(
            more.last(),
            leases::in_state(id, DeliveryState::Leased),
        );
        assert(more.last() == more[more.len() - 1]);
    }
}

/// A fresh id is borne by no delivery.
proof fn lemma_unused_event_id(m: LedgerView, id: EventId)
    requires
        !m.event_id_used(id),
    ensures
        forall|k: int| 0 <= k < m.deliveries.len() ==> (#[trigger] m.deliveries[k]).event_id != id,
        forall|k: int| 0 <= k < m.events.len() ==> (#[trigger] m.events[k]).id != id,
{
}

/// A change that is not refused keeps the catalog consistent.
#[verifier::rlimit(40)]
pub proof fn lemma_changed_consistent(m: LedgerView, at: int, change: ChangeView)
    requires
        consistent(m),
        0 <= at < m.records.len(),
        m.records[at].record_version < MAX_STORED,
        records::change_refusal(m, m.records[at].record_version, change.event_id) is None,
        change.revision_id matches Some(id) ==> exists|j: int|
            0 <= j < m.revisions.len() && (#[trigger] m.revisions[j]).id == id
                && m.revisions[j].record_id == m.records[at].id,
    ensures
        consistent(records::changed(m, at, change)),
{
    let next = records::changed(m, at, change);
    let event = records::change_event(m, at, change);
    let entries = records::fan_out(m.subscriptions, event, m.latest_delivery());
    lemma_unused_event_id(m, change.event_id);
    assert(records_distinct(next.records)) by {
        assert forall|i: int, j: int| 0 <= i < j < next.records.len() implies (
        #[trigger] next.records[i]).id != (#[trigger] next.records[j]).id
            && next.records[i].identity != next.records[j].identity by {
            assert(m.records[i].id != m.records[j].id);
        }
    }
    assert(events_distinct(next.events)) by {
        assert forall|i: int, j: int| 0 <= i < j < next.events.len() implies (
        #[trigger] next.events[i]).id != (#[trigger] next.events[j]).id by {
            assert(next.events[i] == m.events[i]);
            if j < m.events.len() {
                assert(next.events[j] == m.events[j]);
            }
        }
    }
    lemma_event_count_push(m.events, event, event.record_id);
    assert(versions_gapless(next.events)) by {
        assert forall|j: int| 0 <= j < next.events.len() implies (
        #[trigger] next.events[j]).record_version == event_count(
            next.events.take(j + 1),
            next.events[j].record_id,
        ) by {
            if j < m.events.len() {
                assert(next.events[j] == m.events[j]);
                assert(next.events.take(j + 1) =~= m.events.take(j + 1));
            } else {
                assert(next.events.take(j + 1) =~= m.events.push(event));
                assert(m.records[at].record_version == event_count(m.events, m.records[at].id));
            }
        }
    }
    assert(versions_current(next)) by {
        assert forall|i: int| 0 <= i < next.records.len() implies (
        #[trigger] next.records[i]).record_version == event_count(
            next.events,
            next.records[i].id,
        ) by {
            lemma_event_count_push(m.events, event, m.records[i].id);
            assert(m.records[i].record_version == event_count(m.events, m.records[i].id));
            if i < at {
                assert(m.records[i].id != m.records[at].id);
            } else if i > at {
                assert(m.records[at].id != m.records[i].id);
            }
        }
    }
    assert(events_tied(next)) by {
        assert forall|j: int| 0 <= j < next.events.len() implies record_exists(
            next,
            (#[trigger] next.events[j]).record_id,
        ) by {
            if j < m.events.len() {
                assert(next.events[j] == m.events[j]);
                assert(record_exists(m, m.events[j].record_id));
                let i = choose|i: int|
                    0 <= i < m.records.len() && (#[trigger] m.records[i]).id
                        == m.events[j].record_id;
                assert(next.records[i].id == m.records[i].id);
            } else {
                assert(next.records[at].id == event.record_id);
            }
        }
    }
    assert(revisions_tied(next)) by {
        assert forall|i: int|
            0 <= i < next.records.len() && (#[trigger] next.records[i]).current_revision_id
                is Some implies exists|j: int|
            0 <= j < next.revisions.len() && (#[trigger] next.revisions[j]).id
                == next.records[i].current_revision_id->Some_0 && next.revisions[j].record_id
                == next.records[i].id by {
            if i != at {
                assert(next.records[i] == m.records[i]);
                let j = choose|j: int|
                    0 <= j < m.revisions.len() && (#[trigger] m.revisions[j]).id
                        == m.records[i].current_revision_id->Some_0 && m.revisions[j].record_id
                        == m.records[i].id;
                assert(next.revisions[j] == m.revisions[j]);
            } else {
                let id = change.revision_id->Some_0;
                let j = choose|j: int|
                    0 <= j < m.revisions.len() && (#[trigger] m.revisions[j]).id == id
                        && m.revisions[j].record_id == m.records[at].id;
                assert(next.revisions[j] == m.revisions[j]);
            }
        }
    }
    assert(deliveries_tied(next)) by {
        assert forall|k: int| 0 <= k < next.deliveries.len() implies delivery_tied(
            next,
            #[trigger] next.deliveries[k],
        ) by {
            if k < m.deliveries.len() {
                let d = m.deliveries[k];
                assert(next.deliveries[k] == d);
                assert(delivery_tied(m, d));
                let i = choose|i: int|
                    0 <= i < m.records.len() && (#[trigger] m.records[i]).id == d.record_id
                        && d.record_version <= m.records[i].record_version;
                assert(next.records[i].id == d.record_id && d.record_version
                    <= next.records[i].record_version);
                let s = choose|s: int|
                    0 <= s < m.subscriptions.len() && (#[trigger] m.subscriptions[s]).id
                        == d.subscription_id;
                assert(next.subscriptions[s].id == d.subscription_id);
            } else {
                let s = k - m.deliveries.len();
                assert(next.deliveries[k] == entries[s]);
                assert(next.records[at].id == event.record_id);
                assert(next.subscriptions[s].id == entries[s].subscription_id);
            }
        }
    }
    lemma_older_versions(m, at);
    assert(deliveries_distinct(next.deliveries)) by {
        assert forall|i: int, j: int| 0 <= i < j < next.deliveries.len() implies !same_delivery(
            #[trigger] next.deliveries[i],
            #[trigger] next.deliveries[j],
        ) by {
            if j < m.deliveries.len() {
                assert(next.deliveries[i] == m.deliveries[i] && next.deliveries[j]
                    == m.deliveries[j]);
            } else {
                let t = j - m.deliveries.len();
                assert(next.deliveries[j] == entries[t]);
                if i < m.deliveries.len() {
                    assert(next.deliveries[i] == m.deliveries[i]);
                    assert(m.deliveries[i].event_id != change.event_id);
                } else {
                    let s = i - m.deliveries.len();
                    assert(next.deliveries[i] == entries[s]);
                    assert(m.subscriptions[s].id != m.subscriptions[t].id);
                }
            }
        }
    }
    assert(leases_in_order(next.deliveries)) by {
        assert forall|k: int, p: int|
            0 <= k < next.deliveries.len() && 0 <= p < next.deliveries.len() && (
            #[trigger] next.deliveries[k]).state
                == DeliveryState::Leased implies !leases::holds_back(
            #[trigger] next.deliveries[p],
            next.deliveries[k],
        ) by {
            if k < m.deliveries.len() {
                assert(next.deliveries[k] == m.deliveries[k]);
                if p < m.deliveries.len() {
                    assert(next.deliveries[p] == m.deliveries[p]);
                } else {
                    assert(next.deliveries[p] == entries[p - m.deliveries.len()]);
                }
            } else {
                assert(next.deliveries[k] == entries[k - m.deliveries.len()]);
            }
        }
    }
    assert(leases_bounded(next)) by {
        assert forall|k: int| 0 <= k < entries.len() implies (#[trigger] entries[k]).state
            != DeliveryState::Leased by {}
        assert forall|s: int| 0 <= s < next.subscriptions.len() implies leases::count_in(
            next.deliveries,
            (#[trigger] next.subscriptions[s]).id,
            DeliveryState::Leased,
        ) <= next.subscriptions[s].max_active_leases by {
            lemma_leased_count_append(m.deliveries, entries, m.subscriptions[s].id);
            assert(leases::count_in(
                m.deliveries,
                m.subscriptions[s].id,
                DeliveryState::Leased,
            ) <= m.subscriptions[s].max_active_leases);
        }
    }
}

/// No delivery of a record is ahead of the record.
proof fn lemma_older_versions(m: LedgerView, at: int)
    requires
        consistent(m),
        0 <= at < m.records.len(),
    ensures
        forall|k: int|
            0 <= k < m.deliveries.len() && (#[trigger] m.deliveries[k]).record_id
                == m.records[at].id ==> m.deliveries[k].record_version
                <= m.records[at].record_version,
{
    assert forall|k: int|
        0 <= k < m.deliveries.len() && (#[trigger] m.deliveries[k]).record_id
            == m.records[at].id implies m.deliveries[k].record_version
        <= m.records[at].record_version by {
        let d = m.deliveries[k];
        assert(delivery_tied(m, d));
        let i = choose|i: int|
            0 <= i < m.records.len() && (#[trigger] m.records[i]).id == d.record_id
                && d.record_version <= m.records[i].record_version;
        if i < at {
            assert(m.records[i].id != m.records[at].id);
        } else if at < i {
            assert(m.records[at].id != m.records[i].id);
        }
    }
}

/// Only tables that consistency does not speak of differ.
pub open spec fn same_core(a: LedgerView, b: LedgerView) -> bool {
    &&& a.records == b.records
    &&& a.revisions == b.revisions
    &&& a.events == b.events
    &&& a.subscriptions == b.subscriptions
    &&& a.deliveries == b.deliveries
}

pub proof fn lemma_same_core(a: LedgerView, b: LedgerView)
    requires
        consistent(a),
        same_core(a, b),
    ensures
        consistent(b),
{
    assert forall|j: int| 0 <= j < b.events.len() implies record_exists(
        b,
        (#[trigger] b.events[j]).record_id,
    ) by {
        assert(record_exists(a, a.events[j].record_id));
    }
    assert forall|k: int| 0 <= k < b.deliveries.len() implies delivery_tied(
        b,
        #[trigger] b.deliveries[k],
    ) by {
        assert(delivery_tied(a, a.deliveries[k]));
    }
    assert(revisions_tied(b));
    assert(leases_bounded(b));
}

/// Knowing a revision keeps the catalog consistent, and the revision is then one of the record.
pub proof fn lemma_know_revision_consistent(
    m: LedgerView,
    record_id: RecordId,
    revision: RevisionView,
    at_ms: i64,
    fresh: RevisionId,
)
    requires
        consistent(m),
    ensures
        match records::know_revision(m, record_id, revision, at_ms, fresh) {
            Ok((next, id)) => {
                &&& consistent(next)
                &&& exists|j: int|
                    0 <= j < next.revisions.len() && (#[trigger] next.revisions[j]).id == id
                        && next.revisions[j].record_id == record_id && next.revisions[j].revision
                        == revision
                &&& forall|j: int|
                    0 <= j < m.revisions.len() ==> j < next.revisions.len() && (
                    #[trigger] next.revisions[j]).id == m.revisions[j].id
                        && next.revisions[j].record_id == m.revisions[j].record_id
                        && next.revisions[j].revision == m.revisions[j].revision
            },
            Err(_) => true,
        },
{
    let accepts = ledger::has_revision(record_id, revision);
    ledger::lemma_find_first(m.revisions, accepts);
    ledger::lemma_find_first(m.revisions, ledger::has_revision_id(fresh));
    match records::know_revision(m, record_id, revision, at_ms, fresh) {
        Err(_) => {},
        Ok((next, id)) => {
            match ledger::find_first(m.revisions, accepts) {
                Some(at) => {
                    assert(accepts(m.revisions[at]));
                    assert(next.revisions[at].id == id);
                    assert forall|i: int, j: int| 0 <= i < j < next.revisions.len() implies (
                    #[trigger] next.revisions[i]).id != (#[trigger] next.revisions[j]).id && !(
                    next.revisions[i].record_id == next.revisions[j].record_id
                        && next.revisions[i].revision == next.revisions[j].revision) by {
                        assert(m.revisions[i].id != m.revisions[j].id);
                    }
                },
                None => {
                    assert(next.revisions[m.revisions.len() as int].id == id);
                    assert forall|i: int, j: int| 0 <= i < j < next.revisions.len() implies (
                    #[trigger] next.revisions[i]).id != (#[trigger] next.revisions[j]).id && !(
                    next.revisions[i].record_id == next.revisions[j].record_id
                        && next.revisions[i].revision == next.revisions[j].revision) by {
                        assert(next.revisions[i] == m.revisions[i]);
                        if j < m.revisions.len() {
                            assert(next.revisions[j] == m.revisions[j]);
                        } else {
                            assert(!accepts(m.revisions[i]));
                            assert(!ledger::has_revision_id(fresh)(m.revisions[i]));
                        }
                    }
                },
            }
            assert(revisions_tied(next)) by {
                assert forall|i: int|
                    0 <= i < next.records.len() && (#[trigger] next.records[i]).current_revision_id
                        is Some implies exists|j: int|
                    0 <= j < next.revisions.len() && (#[trigger] next.revisions[j]).id
                        == next.records[i].current_revision_id->Some_0
                        && next.revisions[j].record_id == next.records[i].id by {
                    let j = choose|j: int|
                        0 <= j < m.revisions.len() && (#[trigger] m.revisions[j]).id
                            == m.records[i].current_revision_id->Some_0 && m.revisions[j].record_id
                            == m.records[i].id;
                    assert(next.revisions[j].id == m.revisions[j].id);
                }
            }
            assert forall|j: int| 0 <= j < next.events.len() implies record_exists(
                next,
                (#[trigger] next.events[j]).record_id,
            ) by {
                assert(record_exists(m, m.events[j].record_id));
            }
            assert forall|k: int| 0 <= k < next.deliveries.len() implies delivery_tied(
                next,
                #[trigger] next.deliveries[k],
            ) by {
                assert(delivery_tied(m, m.deliveries[k]));
            }
            assert(leases_bounded(next));
        },
    }
}

/// A record that no event has touched yet keeps the catalog consistent.
pub proof fn lemma_unborn_consistent(m: LedgerView, row: RecordView)
    requires
        consistent(m),
        row.record_version == 0,
        row.current_revision_id is None,
        m.record_with(row.identity) is None,
        m.record_at(row.id) is None,
    ensures
        consistent(LedgerView { records: m.records.push(row), ..m }),
{
    let next = LedgerView { records: m.records.push(row), ..m };
    ledger::lemma_find_first(m.records, ledger::has_identity(row.identity));
    ledger::lemma_find_first(m.records, ledger::has_record_id(row.id));
    assert forall|i: int| 0 <= i < m.records.len() implies (#[trigger] m.records[i]).id != row.id
        && m.records[i].identity != row.identity by {
        assert(!ledger::has_identity(row.identity)(m.records[i]));
        assert(!ledger::has_record_id(row.id)(m.records[i]));
    }
    assert forall|i: int, j: int| 0 <= i < j < next.records.len() implies (
    #[trigger] next.records[i]).id != (#[trigger] next.records[j]).id && next.records[i].identity
        != next.records[j].identity by {
        assert(next.records[i] == m.records[i]);
        if j < m.records.len() {
            assert(next.records[j] == m.records[j]);
        }
    }
    assert forall|j: int| 0 <= j < m.events.len() implies (#[trigger] m.events[j]).record_id
        != row.id by {
        assert(record_exists(m, m.events[j].record_id));
    }
    lemma_no_events(m.events, row.id);
    assert forall|i: int| 0 <= i < next.records.len() implies (
    #[trigger] next.records[i]).record_version == event_count(next.events, next.records[i].id) by {
        if i < m.records.len() {
            assert(next.records[i] == m.records[i]);
        }
    }
    assert forall|j: int| 0 <= j < next.events.len() implies record_exists(
        next,
        (#[trigger] next.events[j]).record_id,
    ) by {
        assert(record_exists(m, m.events[j].record_id));
        let i = choose|i: int|
            0 <= i < m.records.len() && (#[trigger] m.records[i]).id == m.events[j].record_id;
        assert(next.records[i] == m.records[i]);
    }
    assert forall|i: int|
        0 <= i < next.records.len() && (#[trigger] next.records[i]).current_revision_id
            is Some implies exists|j: int|
        0 <= j < next.revisions.len() && (#[trigger] next.revisions[j]).id
            == next.records[i].current_revision_id->Some_0 && next.revisions[j].record_id
            == next.records[i].id by {
        assert(i < m.records.len());
        assert(next.records[i] == m.records[i]);
        let j = choose|j: int|
            0 <= j < m.revisions.len() && (#[trigger] m.revisions[j]).id
                == m.records[i].current_revision_id->Some_0 && m.revisions[j].record_id
                == m.records[i].id;
        assert(next.revisions[j] == m.revisions[j]);
    }
    assert forall|k: int| 0 <= k < next.deliveries.len() implies delivery_tied(
        next,
        #[trigger] next.deliveries[k],
    ) by {
        let d = m.deliveries[k];
        assert(delivery_tied(m, d));
        let i = choose|i: int|
            0 <= i < m.records.len() && (#[trigger] m.records[i]).id == d.record_id
                && d.record_version <= m.records[i].record_version;
        assert(next.records[i] == m.records[i]);
        let s = choose|s: int|
            0 <= s < m.subscriptions.len() && (#[trigger] m.subscriptions[s]).id
                == d.subscription_id;
        assert(next.subscriptions[s] == m.subscriptions[s]);
    }
    assert(leases_bounded(next));
}

/// The current bytes of a record are known among the revisions of that record.
pub proof fn lemma_current_known(m: LedgerView, at: int)
    requires
        consistent(m),
        0 <= at < m.records.len(),
    ensures
        m.records[at].current_revision_id matches Some(id) ==> exists|j: int|
            0 <= j < m.revisions.len() && (#[trigger] m.revisions[j]).id == id
                && m.revisions[j].record_id == m.records[at].id,
{
    if m.records[at].current_revision_id is Some {
        assert(m.records[at].current_revision_id is Some);
    }
}

/// Observing a record at a known position keeps the catalog consistent.
pub proof fn lemma_observe_at_consistent(
    m: LedgerView,
    at: int,
    location: LocationView,
    revision: RevisionView,
    at_ms: i64,
    ids: ObservationIds,
)
    requires
        consistent(m),
        0 <= at < m.records.len(),
    ensures
        records::observe_at(m, at, location, revision, at_ms, ids) matches Ok((next, events))
            ==> consistent(next),
{
    let record = m.records[at];
    let restoration = ChangeView {
        event_id: ids.first_event,
        kind: crate::domain::EventKind::RecordRestored,
        revision_id: record.current_revision_id,
        location,
        state: RecordState::Active,
        at_ms,
    };
    let restores = record.state == RecordState::Tombstoned;
    if restores && records::change_refusal(m, record.record_version, ids.first_event) is Some {
    } else {
        let m1 = if restores {
            records::changed(m, at, restoration)
        } else {
            m
        };
        lemma_current_known(m, at);
        if restores {
            lemma_changed_consistent(m, at, restoration);
        }
        lemma_know_revision_consistent(m1, record.id, revision, at_ms, ids.revision_id);
        match records::know_revision(m1, record.id, revision, at_ms, ids.revision_id) {
            Err(_) => {},
            Ok((m2, revision_id)) => {
                let event_id = if restores {
                    ids.second_event
                } else {
                    ids.first_event
                };
                assert(m2.records == m1.records);
                assert(m2.records[at].id == record.id);
                assert(m2.records[at].current_revision_id == record.current_revision_id);
                let committed = ChangeView {
                    event_id,
                    kind: crate::domain::EventKind::RevisionCommitted,
                    revision_id: Some(revision_id),
                    location,
                    state: RecordState::Active,
                    at_ms,
                };
                let moved = ChangeView {
                    event_id,
                    kind: crate::domain::EventKind::LocationChanged,
                    revision_id: record.current_revision_id,
                    location,
                    state: RecordState::Active,
                    at_ms,
                };
                if records::change_refusal(m2, m2.records[at].record_version, event_id) is None {
                    lemma_current_known(m2, at);
                    lemma_changed_consistent(m2, at, committed);
                    lemma_changed_consistent(m2, at, moved);
                }
            },
        }
    }
}

/// Observing a present record keeps the catalog consistent.
pub proof fn law_observe_keeps_consistent(
    m: LedgerView,
    identity: IdentityView,
    location: LocationView,
    revision: RevisionView,
    at_ms: i64,
    ids: ObservationIds,
)
    requires
        consistent(m),
    ensures
        records::observe(m, identity, location, revision, at_ms, ids) matches Ok((next, events))
            ==> consistent(next),
{
    match m.record_with(identity) {
        Some(at) => {
            ledger::lemma_find_first(m.records, ledger::has_identity(identity));
            lemma_observe_at_consistent(m, at, location, revision, at_ms, ids);
        },
        None => {
            if m.record_at(ids.record_id) is None {
                let row = records::unborn(ids.record_id, identity, location, at_ms);
                lemma_unborn_consistent(m, row);
                lemma_observe_at_consistent(
                    LedgerView { records: m.records.push(row), ..m },
                    m.records.len() as int,
                    location,
                    revision,
                    at_ms,
                    ids,
                );
            }
        },
    }
}

/// Deleting a record keeps the catalog consistent.
pub proof fn law_tombstone_keeps_consistent(
    m: LedgerView,
    identity: IdentityView,
    at_ms: i64,
    event_id: EventId,
)
    requires
        consistent(m),
    ensures
        records::tombstone(m, identity, at_ms, event_id) matches Ok((next, event)) ==> consistent(
            next,
        ),
{
    ledger::lemma_find_first(m.records, ledger::has_identity(identity));
    if let Some(at) = m.record_with(identity) {
        lemma_current_known(m, at);
        if records::change_refusal(m, m.records[at].record_version, event_id) is None {
            lemma_changed_consistent(m, at, records::deletion(m.records[at], at_ms, event_id));
        }
    }
}

proof fn lemma_miss_consistent(
    m: LedgerView,
    scan: ScanView,
    grace: TombstoneGrace,
    at_ms: i64,
    record_id: RecordId,
    event_id: EventId,
)
    requires
        consistent(m),
    ensures
        sources::miss(m, scan, grace, at_ms, record_id, event_id) matches Ok((next, events))
            ==> consistent(next),
{
    let row = sources::missed(m, scan, record_id, at_ms);
    let counted = sources::with_candidate(m, row);
    lemma_same_core(m, counted);
    ledger::lemma_find_first(counted.records, ledger::has_record_id(record_id));
    lemma_same_core(counted, sources::without_candidate(counted, record_id));
    if let Some(at) = counted.record_at(record_id) {
        lemma_current_known(counted, at);
        let deletion = records::deletion(counted.records[at], at_ms, event_id);
        if records::change_refusal(counted, counted.records[at].record_version, event_id) is None {
            lemma_changed_consistent(counted, at, deletion);
            let deleted = records::changed(counted, at, deletion);
            lemma_same_core(deleted, sources::without_candidate(deleted, record_id));
        }
    }
}

proof fn lemma_miss_all_consistent(
    m: LedgerView,
    scan: ScanView,
    grace: TombstoneGrace,
    at_ms: i64,
    missing: Seq<SourceRecordView>,
    event_ids: Seq<EventId>,
)
    requires
        consistent(m),
    ensures
        sources::miss_all(m, scan, grace, at_ms, missing, event_ids) matches Ok((next, events))
            ==> consistent(next),
    decreases missing.len(),
{
    if missing.len() > 0 {
        lemma_miss_all_consistent(m, scan, grace, at_ms, missing.drop_last(), event_ids);
        if let Ok((before, events)) = sources::miss_all(
            m,
            scan,
            grace,
            at_ms,
            missing.drop_last(),
            event_ids,
        ) {
            lemma_miss_consistent(
                before,
                scan,
                grace,
                at_ms,
                missing.last().record_id,
                event_ids[missing.len() - 1],
            );
        }
    }
}

/// Completing a scan keeps the catalog consistent.
pub proof fn law_complete_keeps_consistent(
    m: LedgerView,
    scan: ScanView,
    grace: Option<TombstoneGrace>,
    at_ms: i64,
    event_ids: Seq<EventId>,
)
    requires
        consistent(m),
    ensures
        sources::complete(m, scan, grace, at_ms, event_ids) matches Ok((next, events))
            ==> consistent(next),
{
    match grace {
        Some(grace) => {
            let missing = m.source_records.filter(sources::is_missing(scan));
            lemma_miss_all_consistent(m, scan, grace, at_ms, missing, event_ids);
            if let Ok((counted, events)) = sources::miss_all(
                m,
                scan,
                grace,
                at_ms,
                missing,
                event_ids,
            ) {
                lemma_same_core(counted, sources::finished(counted, scan));
            }
        },
        None => {
            lemma_same_core(m, sources::finished(m, scan));
        },
    }
}

/// A subscription that no delivery names holds no lease.
proof fn lemma_no_leases(rows: Seq<DeliveryView>, id: SubscriptionId)
    requires
        forall|k: int| 0 <= k < rows.len() ==> (#[trigger] rows[k]).subscription_id != id,
    ensures
        leases::count_in(rows, id, DeliveryState::Leased) == 0,
    decreases rows.len(),
{
    if rows.len() == 0 {
        reveal(Seq::filter);
    } else {
        let shorter = rows.drop_last();
        assert forall|k: int| 0 <= k < shorter.len() implies (#[trigger] shorter[k]).subscription_id
            != id by {
            assert(shorter[k] == rows[k]);
        }
        lemma_no_leases(shorter, id);
        assert(rows =~= shorter.push(rows.last()));
        shorter.lemma_filter_push(rows.last(), leases::in_state(id, DeliveryState::Leased));
        assert(rows.last() == rows[rows.len() - 1]);
    }
}

/// In a gapless history, later events of a record have greater versions.
pub proof fn law_versions_ascend(m: LedgerView, i: int, j: int)
    requires
        consistent(m),
        0 <= i < j < m.events.len(),
        m.events[i].record_id == m.events[j].record_id,
    ensures
        m.events[i].record_version < m.events[j].record_version,
    decreases j - i,
{
    let id = m.events[j].record_id;
    lemma_count_monotone(m.events, id, i + 1, j);
    assert(m.events.take(j + 1) =~= m.events.take(j).push(m.events[j]));
    lemma_event_count_push(m.events.take(j), m.events[j], id);
}

proof fn lemma_count_monotone(events: Seq<EventView>, id: RecordId, a: int, b: int)
    requires
        0 <= a <= b <= events.len(),
    ensures
        event_count(events.take(a), id) <= event_count(events.take(b), id),
    decreases b - a,
{
    if a < b {
        lemma_count_monotone(events, id, a, b - 1);
        assert(events.take(b) =~= events.take(b - 1).push(events[b - 1]));
        lemma_event_count_push(events.take(b - 1), events[b - 1], id);
    }
}

/// No version of a record is ever used twice.
pub proof fn law_versions_never_reused(m: LedgerView, i: int, j: int)
    requires
        consistent(m),
        0 <= i < m.events.len(),
        0 <= j < m.events.len(),
        m.events[i].record_id == m.events[j].record_id,
        m.events[i].record_version == m.events[j].record_version,
    ensures
        i == j,
{
    if i < j {
        law_versions_ascend(m, i, j);
    } else if j < i {
        law_versions_ascend(m, j, i);
    }
}

/// The version of an event is one that its record has reached.
proof fn lemma_event_version(m: LedgerView, j: int)
    requires
        consistent(m),
        0 <= j < m.events.len(),
    ensures
        exists|i: int|
            0 <= i < m.records.len() && (#[trigger] m.records[i]).id == m.events[j].record_id
                && m.events[j].record_version <= m.records[i].record_version,
{
    let id = m.events[j].record_id;
    assert(record_exists(m, id));
    let i = choose|i: int| 0 <= i < m.records.len() && (#[trigger] m.records[i]).id == id;
    lemma_count_monotone(m.events, id, j + 1, m.events.len() as int);
    assert(m.events.take(m.events.len() as int) =~= m.events);
    assert(m.records[i].record_version == event_count(m.events, id));
}

/// An epoch's starting events are of versions that records have reached, and no two of them are of
/// the same version or bear the same id.
proof fn lemma_starting_events(
    m: LedgerView,
    mode: SubscriptionMode,
    after: u64,
    ids: Seq<EventId>,
    at_ms: i64,
)
    requires
        consistent(m),
        mode == SubscriptionMode::RebuildCurrent ==> !subscriptions::repeats(
            ids,
            subscriptions::starting_events(m, mode, after, ids, at_ms).len() as int,
        ),
    ensures
        ({
            let events = subscriptions::starting_events(m, mode, after, ids, at_ms);
            &&& forall|k: int|
                0 <= k < events.len() ==> reached(m, #[trigger] events[k])
            &&& forall|a: int, b: int|
                0 <= a < b < events.len() ==> !same_event(#[trigger] events[a], #[trigger] events[b])
        }),
{
    let events = subscriptions::starting_events(m, mode, after, ids, at_ms);
    match mode {
        SubscriptionMode::ReplayEvents => {
            lemma_filtered_events(m, after, m.events.len() as int);
            assert(m.events.take(m.events.len() as int) =~= m.events);
        },
        SubscriptionMode::RebuildCurrent => {
            let active = subscriptions::active_by_id(m.records);
            subscriptions::lemma_active_distinct(m.records);
            assert forall|k: int| 0 <= k < events.len() implies reached(m, #[trigger] events[k]) by {
                subscriptions::lemma_active_from(m.records, k);
                let i = choose|i: int| 0 <= i < m.records.len() && m.records[i] == active[k];
                assert(m.records[i].id == events[k].record_id);
            }
            assert forall|a: int, b: int| 0 <= a < b < events.len() implies !same_event(
                #[trigger] events[a],
                #[trigger] events[b],
            ) by {
                assert(events[a].id == ids[a] && events[b].id == ids[b]);
                assert(active[a].id != active[b].id);
            }
        },
    }
}

/// Whether an event is of a version that its record has reached.
pub open spec fn reached(m: LedgerView, event: EventView) -> bool {
    exists|i: int|
        0 <= i < m.records.len() && (#[trigger] m.records[i]).id == event.record_id
            && event.record_version <= m.records[i].record_version
}

/// Whether two events bear the same id, or are of the same version of the same record.
pub open spec fn same_event(a: EventView, b: EventView) -> bool {
    a.id == b.id || (a.record_id == b.record_id && a.record_version == b.record_version)
}

proof fn lemma_filtered_events(m: LedgerView, after: u64, count: int)
    requires
        consistent(m),
        0 <= count <= m.events.len(),
    ensures
        ({
            let kept = records::events_behind(m.events.take(count), after);
            &&& forall|k: int|
                0 <= k < kept.len() ==> reached(m, #[trigger] kept[k])
            &&& forall|k: int|
                0 <= k < kept.len() ==> exists|j: int|
                    0 <= j < count && #[trigger] m.events[j] == #[trigger] kept[k]
            &&& forall|a: int, b: int|
                0 <= a < b < kept.len() ==> !same_event(#[trigger] kept[a], #[trigger] kept[b])
        }),
    decreases count,
{
    let kept = records::events_behind(m.events.take(count), after);
    if count == 0 {
        assert(m.events.take(0) =~= Seq::<EventView>::empty());
        reveal(Seq::filter);
    } else {
        lemma_filtered_events(m, after, count - 1);
        let last = m.events[count - 1];
        let prior = m.events.take(count - 1);
        assert(m.events.take(count) =~= prior.push(last));
        prior.lemma_filter_push(last, records::is_after(after));
        let before = records::events_behind(prior, after);
        lemma_event_version(m, count - 1);
        assert forall|k: int| 0 <= k < kept.len() implies reached(m, #[trigger] kept[k]) by {
            if k < before.len() {
                assert(kept[k] == before[k]);
            }
        }
        assert forall|k: int| 0 <= k < kept.len() implies exists|j: int|
            0 <= j < count && #[trigger] m.events[j] == #[trigger] kept[k] by {
            if k < before.len() {
                assert(kept[k] == before[k]);
                let j = choose|j: int|
                    0 <= j < count - 1 && #[trigger] m.events[j] == before[k];
                assert(m.events[j] == kept[k]);
            } else {
                assert(m.events[count - 1] == kept[k]);
            }
        }
        assert forall|a: int, b: int| 0 <= a < b < kept.len() implies !same_event(
            #[trigger] kept[a],
            #[trigger] kept[b],
        ) by {
            assert(kept[a] == before[a]);
            if b < before.len() {
                assert(kept[b] == before[b]);
            } else {
                let j = choose|j: int|
                    0 <= j < count - 1 && #[trigger] m.events[j] == before[a];
                assert(m.events[j].id != m.events[count - 1].id);
                if m.events[j].record_id == last.record_id {
                    law_versions_ascend(m, j, count - 1);
                }
            }
        }
    }
}

/// Creating a subscription keeps the catalog consistent.
pub proof fn law_subscribe_keeps_consistent(
    m: LedgerView,
    config: ConfigView,
    mode: SubscriptionMode,
    at_ms: i64,
    id: SubscriptionId,
    event_ids: Seq<EventId>,
)
    requires
        consistent(m),
    ensures
        subscriptions::subscribe(m, config, mode, at_ms, id, event_ids) matches Ok(next)
            ==> consistent(next),
{
    if let Ok(next) = subscriptions::subscribe(m, config, mode, at_ms, id, event_ids) {
        let row = subscriptions::subscription_row(id, config, mode, at_ms);
        let events = subscriptions::starting_events(
            m,
            mode,
            config.replay_after_sequence,
            event_ids,
            at_ms,
        );
        let is_snapshot = mode == SubscriptionMode::RebuildCurrent;
        let entries = subscriptions::queue_of(row, events, m.latest_delivery(), is_snapshot);
        assert(next.deliveries == m.deliveries + entries);
        ledger::lemma_find_first(m.subscriptions, ledger::has_subscription_id(id));
        lemma_starting_events(m, mode, config.replay_after_sequence, event_ids, at_ms);
        assert forall|s: int| 0 <= s < m.subscriptions.len() implies (
        #[trigger] m.subscriptions[s]).id != id by {
            assert(!ledger::has_subscription_id(id)(m.subscriptions[s]));
        }
        assert forall|k: int| 0 <= k < m.deliveries.len() implies (
        #[trigger] m.deliveries[k]).subscription_id != id by {
            assert(delivery_tied(m, m.deliveries[k]));
        }
        assert forall|k: int| 0 <= k < entries.len() implies (#[trigger] entries[k]).state
            != DeliveryState::Leased by {}
        assert(subscriptions_distinct(next.subscriptions));
        assert forall|k: int| 0 <= k < next.deliveries.len() implies delivery_tied(
            next,
            #[trigger] next.deliveries[k],
        ) by {
            if k < m.deliveries.len() {
                let d = m.deliveries[k];
                assert(next.deliveries[k] == d);
                assert(delivery_tied(m, d));
                let i = choose|i: int|
                    0 <= i < m.records.len() && (#[trigger] m.records[i]).id == d.record_id
                        && d.record_version <= m.records[i].record_version;
                assert(next.records[i] == m.records[i]);
                let s = choose|s: int|
                    0 <= s < m.subscriptions.len() && (#[trigger] m.subscriptions[s]).id
                        == d.subscription_id;
                assert(next.subscriptions[s] == m.subscriptions[s]);
            } else {
                let e = k - m.deliveries.len();
                assert(next.deliveries[k] == entries[e]);
                assert(reached(m, events[e]));
                let i = choose|i: int|
                    0 <= i < m.records.len() && (#[trigger] m.records[i]).id
                        == events[e].record_id && events[e].record_version
                        <= m.records[i].record_version;
                assert(next.records[i] == m.records[i]);
                assert(next.subscriptions[m.subscriptions.len() as int].id == id);
            }
        }
        assert forall|a: int, b: int| 0 <= a < b < next.deliveries.len() implies !same_delivery(
            #[trigger] next.deliveries[a],
            #[trigger] next.deliveries[b],
        ) by {
            if b < m.deliveries.len() {
                assert(next.deliveries[a] == m.deliveries[a] && next.deliveries[b]
                    == m.deliveries[b]);
            } else {
                let f = b - m.deliveries.len();
                assert(next.deliveries[b] == entries[f]);
                if a < m.deliveries.len() {
                    assert(next.deliveries[a] == m.deliveries[a]);
                } else {
                    let e = a - m.deliveries.len();
                    assert(next.deliveries[a] == entries[e]);
                    assert(!same_event(events[e], events[f]));
                }
            }
        }
        assert forall|k: int, p: int|
            0 <= k < next.deliveries.len() && 0 <= p < next.deliveries.len() && (
            #[trigger] next.deliveries[k]).state == DeliveryState::Leased implies !leases::holds_back(
            #[trigger] next.deliveries[p],
            next.deliveries[k],
        ) by {
            if k < m.deliveries.len() {
                assert(next.deliveries[k] == m.deliveries[k]);
                if p < m.deliveries.len() {
                    assert(next.deliveries[p] == m.deliveries[p]);
                } else {
                    assert(next.deliveries[p] == entries[p - m.deliveries.len()]);
                }
            } else {
                assert(next.deliveries[k] == entries[k - m.deliveries.len()]);
            }
        }
        assert forall|s: int| 0 <= s < next.subscriptions.len() implies leases::count_in(
            next.deliveries,
            (#[trigger] next.subscriptions[s]).id,
            DeliveryState::Leased,
        ) <= next.subscriptions[s].max_active_leases by {
            lemma_leased_count_append(m.deliveries, entries, next.subscriptions[s].id);
            if s < m.subscriptions.len() {
                assert(next.subscriptions[s] == m.subscriptions[s]);
            } else {
                lemma_no_leases(m.deliveries, id);
            }
        }
        assert forall|j: int| 0 <= j < next.events.len() implies record_exists(
            next,
            (#[trigger] next.events[j]).record_id,
        ) by {
            assert(record_exists(m, m.events[j].record_id));
        }
        lemma_revisions_tied(m, next);
    }
}

/// Where neither records nor revisions change, current bytes stay tied.
proof fn lemma_revisions_tied(m: LedgerView, next: LedgerView)
    requires
        revisions_tied(m),
        next.records == m.records,
        next.revisions == m.revisions,
    ensures
        revisions_tied(next),
{
    assert forall|i: int|
        0 <= i < next.records.len() && (#[trigger] next.records[i]).current_revision_id
            is Some implies exists|j: int|
        0 <= j < next.revisions.len() && (#[trigger] next.revisions[j]).id
            == next.records[i].current_revision_id->Some_0 && next.revisions[j].record_id
            == next.records[i].id by {
        assert(m.records[i].current_revision_id is Some);
    }
}

/// Whether two delivery rows are of the same delivery.
pub open spec fn same_entry(a: DeliveryView, b: DeliveryView) -> bool {
    &&& a.id == b.id
    &&& a.subscription_id == b.subscription_id
    &&& a.event_id == b.event_id
    &&& a.record_id == b.record_id
    &&& a.record_version == b.record_version
}

/// Replacing rows by rows of the same deliveries keeps what does not speak of states.
proof fn lemma_same_entries(m: LedgerView, deliveries: Seq<DeliveryView>)
    requires
        consistent(m),
        deliveries.len() == m.deliveries.len(),
        forall|k: int|
            0 <= k < deliveries.len() ==> same_entry(#[trigger] deliveries[k], m.deliveries[k]),
        leases_in_order(deliveries),
        leases_bounded(leases::with_deliveries(m, deliveries)),
    ensures
        consistent(leases::with_deliveries(m, deliveries)),
{
    let next = leases::with_deliveries(m, deliveries);
    assert forall|a: int, b: int| 0 <= a < b < deliveries.len() implies !same_delivery(
        #[trigger] deliveries[a],
        #[trigger] deliveries[b],
    ) by {
        assert(!same_delivery(m.deliveries[a], m.deliveries[b]));
    }
    assert forall|k: int| 0 <= k < next.deliveries.len() implies delivery_tied(
        next,
        #[trigger] next.deliveries[k],
    ) by {
        assert(same_entry(deliveries[k], m.deliveries[k]));
        assert(delivery_tied(m, m.deliveries[k]));
    }
    assert forall|j: int| 0 <= j < next.events.len() implies record_exists(
        next,
        (#[trigger] next.events[j]).record_id,
    ) by {
        assert(record_exists(m, m.events[j].record_id));
    }
    lemma_revisions_tied(m, next);
}

/// Fewer leased rows, or as many, count no more.
proof fn lemma_count_no_more(a: Seq<DeliveryView>, b: Seq<DeliveryView>, id: SubscriptionId)
    requires
        a.len() == b.len(),
        forall|k: int|
            0 <= k < a.len() && (#[trigger] a[k]).state == DeliveryState::Leased
                ==> b[k].state == DeliveryState::Leased,
        forall|k: int|
            0 <= k < a.len() ==> (#[trigger] a[k]).subscription_id == b[k].subscription_id,
    ensures
        leases::count_in(a, id, DeliveryState::Leased) <= leases::count_in(
            b,
            id,
            DeliveryState::Leased,
        ),
    decreases a.len(),
{
    let accepts = leases::in_state(id, DeliveryState::Leased);
    if a.len() == 0 {
        reveal(Seq::filter);
    } else {
        let x = a.drop_last();
        let y = b.drop_last();
        assert forall|k: int| 0 <= k < x.len() && (#[trigger] x[k]).state
            == DeliveryState::Leased implies y[k].state == DeliveryState::Leased by {
            assert(a[k].state == DeliveryState::Leased);
        }
        assert forall|k: int| 0 <= k < x.len() implies (#[trigger] x[k]).subscription_id
            == y[k].subscription_id by {
            assert(a[k].subscription_id == b[k].subscription_id);
        }
        lemma_count_no_more(x, y, id);
        assert(a =~= x.push(a.last()));
        assert(b =~= y.push(b.last()));
        x.lemma_filter_push(a.last(), accepts);
        y.lemma_filter_push(b.last(), accepts);
        assert(a[a.len() - 1].subscription_id == b[b.len() - 1].subscription_id);
    }
}

/// One row leased anew counts one more.
proof fn lemma_count_one_more(
    rows: Seq<DeliveryView>,
    at: int,
    row: DeliveryView,
    id: SubscriptionId,
)
    requires
        0 <= at < rows.len(),
        rows[at].state != DeliveryState::Leased,
        row.state == DeliveryState::Leased,
        row.subscription_id == rows[at].subscription_id,
    ensures
        leases::count_in(rows.update(at, row), id, DeliveryState::Leased) == leases::count_in(
            rows,
            id,
            DeliveryState::Leased,
        ) + (if row.subscription_id == id {
            1nat
        } else {
            0nat
        }),
    decreases rows.len(),
{
    let accepts = leases::in_state(id, DeliveryState::Leased);
    let next = rows.update(at, row);
    let x = rows.drop_last();
    assert(rows =~= x.push(rows.last()));
    x.lemma_filter_push(rows.last(), accepts);
    if at == rows.len() - 1 {
        assert(next =~= x.push(row));
        x.lemma_filter_push(row, accepts);
    } else {
        assert(next =~= x.update(at, row).push(rows.last()));
        x.update(at, row).lemma_filter_push(rows.last(), accepts);
        lemma_count_one_more(x, at, row, id);
    }
}

/// Rows that are leased no more, and never anew, keep the catalog consistent where no delivery
/// that a leased one has overtaken loses an outcome.
proof fn lemma_fewer_leases(m: LedgerView, deliveries: Seq<DeliveryView>)
    requires
        consistent(m),
        deliveries.len() == m.deliveries.len(),
        forall|k: int|
            0 <= k < deliveries.len() ==> {
                &&& same_entry(#[trigger] deliveries[k], m.deliveries[k])
                &&& deliveries[k] == m.deliveries[k] || (m.deliveries[k].state
                    == DeliveryState::Leased && deliveries[k].state != DeliveryState::Leased)
            },
    ensures
        consistent(leases::with_deliveries(m, deliveries)),
{
    let next = leases::with_deliveries(m, deliveries);
    assert forall|k: int, p: int|
        0 <= k < deliveries.len() && 0 <= p < deliveries.len() && (#[trigger] deliveries[k]).state
            == DeliveryState::Leased implies !leases::holds_back(
        #[trigger] deliveries[p],
        deliveries[k],
    ) by {
        assert(deliveries[k] == m.deliveries[k]);
        assert(!leases::holds_back(m.deliveries[p], m.deliveries[k]));
        assert(same_entry(deliveries[p], m.deliveries[p]));
    }
    assert forall|s: int| 0 <= s < next.subscriptions.len() implies leases::count_in(
        next.deliveries,
        (#[trigger] next.subscriptions[s]).id,
        DeliveryState::Leased,
    ) <= next.subscriptions[s].max_active_leases by {
        assert forall|k: int|
            0 <= k < deliveries.len() && (#[trigger] deliveries[k]).state
                == DeliveryState::Leased implies m.deliveries[k].state == DeliveryState::Leased by {
            assert(deliveries[k] == m.deliveries[k]);
        }
        assert forall|k: int| 0 <= k < deliveries.len() implies (
        #[trigger] deliveries[k]).subscription_id == m.deliveries[k].subscription_id by {
            assert(same_entry(deliveries[k], m.deliveries[k]));
        }
        lemma_count_no_more(deliveries, m.deliveries, m.subscriptions[s].id);
        assert(leases::count_in(
            m.deliveries,
            m.subscriptions[s].id,
            DeliveryState::Leased,
        ) <= m.subscriptions[s].max_active_leases);
    }
    lemma_same_entries(m, deliveries);
}

/// Settling, retrying or blocking a held lease keeps the catalog consistent.
pub proof fn law_held_update_keeps_consistent(
    m: LedgerView,
    held: LeaseView,
    now_ms: i64,
    next: spec_fn(DeliveryView) -> DeliveryView,
)
    requires
        consistent(m),
        forall|d: DeliveryView|
            same_entry(#[trigger] next(d), d) && next(d).state != DeliveryState::Leased,
    ensures
        leases::on_held(m, held, now_ms, next) matches Ok(after) ==> consistent(after),
{
    ledger::lemma_find_first(m.deliveries, leases::is_held(held, now_ms));
    if let Some(at) = ledger::find_first(m.deliveries, leases::is_held(held, now_ms)) {
        assert(leases::is_held(held, now_ms)(m.deliveries[at]));
        let deliveries = m.deliveries.update(at, next(m.deliveries[at]));
        assert forall|k: int| 0 <= k < deliveries.len() implies {
            &&& same_entry(#[trigger] deliveries[k], m.deliveries[k])
            &&& deliveries[k] == m.deliveries[k] || (m.deliveries[k].state == DeliveryState::Leased
                && deliveries[k].state != DeliveryState::Leased)
        } by {
            if k != at {
                assert(deliveries[k] == m.deliveries[k]);
            }
        }
        lemma_fewer_leases(m, deliveries);
    }
}

/// Settling a lease keeps the catalog consistent.
pub proof fn law_settle_keeps_consistent(
    m: LedgerView,
    held: LeaseView,
    outcome: crate::domain::DeliveryOutcome,
    at_ms: i64,
    reason: Option<Seq<char>>,
)
    requires
        consistent(m),
    ensures
        leases::settle(m, held, outcome, at_ms, reason) matches Ok(after) ==> consistent(after),
{
    law_held_update_keeps_consistent(m, held, at_ms, leases::settled(outcome, at_ms, reason));
}

/// Handing a lease back keeps the catalog consistent.
pub proof fn law_retry_keeps_consistent(m: LedgerView, held: LeaseView, now_ms: i64)
    requires
        consistent(m),
    ensures
        leases::retry(m, held, now_ms) matches Ok(after) ==> consistent(after),
{
    if let Some(s) = m.subscription_at(held.subscription_id) {
        let policy = m.subscriptions[s].retry_policy;
        if let Some(time) = crate::delivery::not_before(policy, held.attempt, now_ms) {
            law_held_update_keeps_consistent(
                m,
                held,
                now_ms,
                leases::retried(policy, now_ms, time),
            );
        }
    }
}

/// Blocking a lease keeps the catalog consistent.
pub proof fn law_block_keeps_consistent(
    m: LedgerView,
    held: LeaseView,
    now_ms: i64,
    reason: Seq<char>,
)
    requires
        consistent(m),
    ensures
        leases::block(m, held, now_ms, reason) matches Ok(after) ==> consistent(after),
{
    law_held_update_keeps_consistent(m, held, now_ms, leases::blocked(reason));
}

/// Leasing keeps the catalog consistent: in record order and within the subscription's bound.
pub proof fn law_lease_keeps_consistent(
    m: LedgerView,
    subscription_id: SubscriptionId,
    now_ms: i64,
    duration_ms: u64,
    token: LeaseToken,
)
    requires
        consistent(m),
    ensures
        leases::lease(m, subscription_id, now_ms, duration_ms, token) matches Ok((after, made))
            ==> consistent(after),
{
    ledger::lemma_find_first(m.subscriptions, ledger::has_subscription_id(subscription_id));
    if let Some(s) = m.subscription_at(subscription_id) {
        assert(m.subscriptions[s].id == subscription_id);
        let subscription = m.subscriptions[s];
        let policy = subscription.retry_policy;
        let queue = leases::sweep(m.deliveries, subscription_id, policy, now_ms);
        let swept = leases::with_deliveries(m, queue);
        assert forall|k: int| 0 <= k < queue.len() implies {
            &&& same_entry(#[trigger] queue[k], m.deliveries[k])
            &&& queue[k] == m.deliveries[k] || (m.deliveries[k].state == DeliveryState::Leased
                && queue[k].state != DeliveryState::Leased)
        } by {}
        lemma_fewer_leases(m, queue);
        if leases::count_in(queue, subscription_id, DeliveryState::Leased)
            < subscription.max_active_leases {
            if let Some(at) = leases::next_candidate(queue, subscription_id, now_ms) {
                assert(leases::is_next(queue, subscription_id, now_ms, at));
                let expires = (now_ms + duration_ms) as i64;
                let row = leases::leased(queue[at], token, expires);
                let deliveries = queue.update(at, row);
                lemma_leased_in_order(swept, subscription_id, now_ms, at, row);
                let next = leases::with_deliveries(swept, deliveries);
                assert forall|t: int| 0 <= t < next.subscriptions.len() implies leases::count_in(
                    next.deliveries,
                    (#[trigger] next.subscriptions[t]).id,
                    DeliveryState::Leased,
                ) <= next.subscriptions[t].max_active_leases by {
                    lemma_count_one_more(queue, at, row, m.subscriptions[t].id);
                    assert(leases::count_in(
                        swept.deliveries,
                        swept.subscriptions[t].id,
                        DeliveryState::Leased,
                    ) <= swept.subscriptions[t].max_active_leases);
                    if m.subscriptions[t].id == subscription_id {
                        if t < s {
                            assert(m.subscriptions[t].id != m.subscriptions[s].id);
                        } else if s < t {
                            assert(m.subscriptions[s].id != m.subscriptions[t].id);
                        }
                    }
                }
                assert forall|k: int| 0 <= k < deliveries.len() implies same_entry(
                    #[trigger] deliveries[k],
                    swept.deliveries[k],
                ) by {}
                lemma_same_entries(swept, deliveries);
                assert(next =~= leases::with_deliveries(m, deliveries));
            }
        }
    }
}

/// Leasing an eligible delivery leaves no earlier version behind, and overtakes no lease.
proof fn lemma_leased_in_order(
    m: LedgerView,
    subscription_id: SubscriptionId,
    now_ms: i64,
    at: int,
    row: DeliveryView,
)
    requires
        consistent(m),
        leases::eligible(m.deliveries, subscription_id, now_ms, at),
        same_entry(row, m.deliveries[at]),
        row.state == DeliveryState::Leased,
    ensures
        leases_in_order(m.deliveries.update(at, row)),
{
    let deliveries = m.deliveries.update(at, row);
    assert forall|k: int, p: int|
        0 <= k < deliveries.len() && 0 <= p < deliveries.len() && (#[trigger] deliveries[k]).state
            == DeliveryState::Leased implies !leases::holds_back(
        #[trigger] deliveries[p],
        deliveries[k],
    ) by {
        if k == at {
            if p != at {
                assert(!leases::holds_back(m.deliveries[p], m.deliveries[at]));
            }
        } else {
            assert(!leases::holds_back(m.deliveries[p], m.deliveries[k]));
        }
    }
}

/// Pausing or resuming a subscription keeps the catalog consistent.
pub proof fn law_pause_keeps_consistent(
    m: LedgerView,
    subscription_id: SubscriptionId,
    enabled: bool,
)
    requires
        consistent(m),
    ensures
        leases::set_enabled(m, subscription_id, enabled) matches Ok(after) ==> consistent(after),
{
    ledger::lemma_find_first(m.subscriptions, ledger::has_subscription_id(subscription_id));
    if let Ok(after) = leases::set_enabled(m, subscription_id, enabled) {
        let s = m.subscription_at(subscription_id)->Some_0;
        assert forall|i: int, j: int| 0 <= i < j < after.subscriptions.len() implies (
        #[trigger] after.subscriptions[i]).id != (#[trigger] after.subscriptions[j]).id by {
            assert(m.subscriptions[i].id != m.subscriptions[j].id);
        }
        assert forall|k: int| 0 <= k < after.deliveries.len() implies delivery_tied(
            after,
            #[trigger] after.deliveries[k],
        ) by {
            let d = m.deliveries[k];
            assert(delivery_tied(m, d));
            let i = choose|i: int|
                0 <= i < m.records.len() && (#[trigger] m.records[i]).id == d.record_id
                    && d.record_version <= m.records[i].record_version;
            assert(after.records[i] == m.records[i]);
            let t = choose|t: int|
                0 <= t < m.subscriptions.len() && (#[trigger] m.subscriptions[t]).id
                    == d.subscription_id;
            assert(after.subscriptions[t].id == m.subscriptions[t].id);
        }
        assert forall|t: int| 0 <= t < after.subscriptions.len() implies leases::count_in(
            after.deliveries,
            (#[trigger] after.subscriptions[t]).id,
            DeliveryState::Leased,
        ) <= after.subscriptions[t].max_active_leases by {
            assert(leases::count_in(
                m.deliveries,
                m.subscriptions[t].id,
                DeliveryState::Leased,
            ) <= m.subscriptions[t].max_active_leases);
        }
        assert forall|j: int| 0 <= j < after.events.len() implies record_exists(
            after,
            (#[trigger] after.events[j]).record_id,
        ) by {
            assert(record_exists(m, m.events[j].record_id));
        }
        lemma_revisions_tied(m, after);
    }
}

/// Whatever touches source tables alone keeps the catalog consistent: beginning a scan, looking at
/// a fingerprint, admitting a hash, marking a record as seen, and advancing a scrub.
pub proof fn law_source_steps_keep_consistent(
    m: LedgerView,
    scan: ScanView,
    registration: RegistrationView,
    identity: IdentityView,
    location: LocationView,
    fingerprint: SourceFingerprint,
    next_after: Option<LocationView>,
    cycle_completed: bool,
    at_ms: i64,
)
    requires
        consistent(m),
    ensures
        sources::begin(m, registration) matches Ok((next, generation)) ==> consistent(next),
        consistent(sources::look(m, scan, location, fingerprint).0),
        sources::admit_hash(m, scan, location) matches Ok(next) ==> consistent(next),
        sources::mark_seen(m, scan, registration, identity) matches Ok(next) ==> consistent(next),
        scrub::advance(m, scan.source_id, next_after, cycle_completed, at_ms) matches Ok(
            next,
        ) ==> consistent(next),
{
    if let Ok((next, generation)) = sources::begin(m, registration) {
        lemma_same_core(m, next);
    }
    lemma_same_core(m, sources::look(m, scan, location, fingerprint).0);
    if let Ok(next) = sources::admit_hash(m, scan, location) {
        lemma_same_core(m, next);
    }
    if let Ok(next) = sources::mark_seen(m, scan, registration, identity) {
        lemma_same_core(m, next);
    }
    if let Ok(next) = scrub::advance(
        m,
        scan.source_id,
        next_after,
        cycle_completed,
        at_ms,
    ) {
        lemma_same_core(m, next);
    }
}

/// What a source's scan observes keeps the catalog consistent, also where the record turns out to
/// belong to another source.
pub proof fn law_source_observation_keeps_consistent(
    m: LedgerView,
    scan: ScanView,
    registration: RegistrationView,
    identity: IdentityView,
    location: LocationView,
    revision: RevisionView,
    at_ms: i64,
    ids: ObservationIds,
)
    requires
        consistent(m),
    ensures
        consistent(
            sources::observe_for(
                m,
                scan,
                registration,
                identity,
                location,
                revision,
                at_ms,
                ids,
            ).0,
        ),
{
    law_observe_keeps_consistent(m, identity, location, revision, at_ms, ids);
    if let Ok((observed, events)) = records::observe(
        m,
        identity,
        location,
        revision,
        at_ms,
        ids,
    ) {
        if let Ok(next) = sources::mark_seen(observed, scan, registration, identity) {
            lemma_same_core(observed, next);
        }
    }
}

/// What a scrub observes keeps the catalog consistent.
pub proof fn law_scrub_observation_keeps_consistent(
    m: LedgerView,
    source_id: Seq<char>,
    identity: IdentityView,
    location: LocationView,
    revision: RevisionView,
    at_ms: i64,
    ids: ObservationIds,
)
    requires
        consistent(m),
    ensures
        scrub::observe_scrubbed(
            m,
            source_id,
            identity,
            location,
            revision,
            at_ms,
            ids,
        ) matches Ok((next, events)) ==> consistent(next),
{
    law_observe_keeps_consistent(m, identity, location, revision, at_ms, ids);
}

/// Recording what a scan accepted, and ending the scan, keep the catalog consistent.
pub proof fn law_scan_keeps_consistent(
    m: LedgerView,
    run: RunView,
    source: SourceView,
    times: Seq<i64>,
    ids: Seq<ObservationIds>,
    count: int,
    at_ms: i64,
    event_ids: Seq<EventId>,
)
    requires
        consistent(m),
    ensures
        consistent(scan::recorded(m, run, times, ids, count).0),
        scan::ended(m, run, source, at_ms, event_ids) matches Ok((next, report)) ==> consistent(
            next,
        ),
    decreases count,
{
    law_complete_keeps_consistent(
        m,
        run.scan,
        scan::grace_of(source.deletion_mode),
        at_ms,
        event_ids,
    );
    if count > 0 {
        law_scan_keeps_consistent(m, run, source, times, ids, count - 1, at_ms, event_ids);
        let before = scan::recorded(m, run, times, ids, count - 1);
        let accepted = run.accepted[count - 1];
        law_source_observation_keeps_consistent(
            before.0,
            run.scan,
            run.registration,
            accepted.record.identity,
            accepted.record.location,
            accepted.revision,
            times[count - 1],
            ids[count - 1],
        );
        let observed = sources::observe_for(
            before.0,
            run.scan,
            run.registration,
            accepted.record.identity,
            accepted.record.location,
            accepted.revision,
            times[count - 1],
            ids[count - 1],
        );
        if let Ok(next) = sources::admit_hash(observed.0, run.scan, accepted.record.location) {
            lemma_same_core(observed.0, next);
        }
    }
}

/// A controlled run keeps the catalog consistent, whatever the consumer answers.
pub proof fn law_run_keeps_consistent(
    m: LedgerView,
    run: ControlledView,
    roots: Map<Seq<char>, Seq<char>>,
    token: LeaseToken,
    answer: Result<DeliveryOutcome, Seq<char>>,
)
    requires
        consistent(m),
    ensures
        consistent(controller::advanced(m, run, roots, token).0),
        consistent(controller::answered(m, run, answer).0),
{
    law_lease_keeps_consistent(
        m,
        run.subscription_id,
        run.now_ms,
        run.limits.lease_duration_ms,
        token,
    );
    if let Ok((next, Some(lease))) = leases::lease(
        m,
        run.subscription_id,
        run.now_ms,
        run.limits.lease_duration_ms,
        token,
    ) {
        law_retry_keeps_consistent(next, lease, run.now_ms);
    }
    if let Some(held) = run.held {
        law_retry_keeps_consistent(m, held.lease, run.now_ms);
        if let Ok(outcome) = answer {
            law_settle_keeps_consistent(m, held.lease, outcome, run.now_ms, None);
        }
    }
}

/// A subscription never works on two versions of one record at the same time.
pub proof fn law_one_lease_per_record(m: LedgerView)
    requires
        consistent(m),
    ensures
        leases::one_lease_per_record(m),
{
    assert forall|a: int, b: int|
        0 <= a < b < m.deliveries.len() && (#[trigger] m.deliveries[a]).state
            == DeliveryState::Leased && (#[trigger] m.deliveries[b]).state == DeliveryState::Leased
            && m.deliveries[a].subscription_id
            == m.deliveries[b].subscription_id implies m.deliveries[a].record_id
        != m.deliveries[b].record_id by {
        assert(!leases::holds_back(m.deliveries[a], m.deliveries[b]));
        assert(!leases::holds_back(m.deliveries[b], m.deliveries[a]));
        assert(!same_delivery(m.deliveries[a], m.deliveries[b]));
    }
}

} // verus!
