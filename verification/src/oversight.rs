//! What runs, caches and status reports come to.
use crate::admin;
use crate::admin::SourceStatusView;
use crate::catalog::SourceFingerprint;
use crate::controller;
use crate::controller::{ControlledView, ControllerErrorView, OutcomeView, RunStepView};
use crate::delivery::{DeliveryState, LeaseToken, LeaseView, SubscriptionId};
use crate::domain;
use crate::domain::{DeliveryOutcome, RecordState, RevisionView};
use crate::ident;
use crate::ident::Uuid;
use crate::leases;
use crate::ledger::{
    CandidateView, DeliveryView, LedgerView, ObservationView, RecordView, SourceRecordView,
    SourceRowView, SubscriptionView,
};
use crate::payload;
use crate::payload::{CacheView, PayloadErrorView, ReaderView};
use crate::text;
use vstd::prelude::*;

verus! {

proof fn lemma_inserted<T>(sorted: Seq<T>, item: T, before: spec_fn(T, T) -> bool, other: T)
    ensures
        admin::insert_sorted(sorted, item, before).contains(other) <==> sorted.contains(other)
            || other == item,
        admin::insert_sorted(sorted, item, before).len() == sorted.len() + 1,
    decreases sorted.len(),
{
    let after = admin::insert_sorted(sorted, item, before);
    if sorted.len() == 0 || !before(item, sorted.last()) {
        assert(after[sorted.len() as int] == item);
        if sorted.contains(other) {
            let i = choose|i: int| 0 <= i < sorted.len() && sorted[i] == other;
            assert(after[i] == other);
        }
        if after.contains(other) {
            let i = choose|i: int| 0 <= i < after.len() && after[i] == other;
            if i < sorted.len() {
                assert(sorted[i] == other);
            }
        }
    } else {
        let front = sorted.drop_last();
        lemma_inserted(front, item, before, other);
        let inner = admin::insert_sorted(front, item, before);
        assert(after[inner.len() as int] == sorted.last());
        if inner.contains(other) {
            let i = choose|i: int| 0 <= i < inner.len() && inner[i] == other;
            assert(after[i] == other);
        }
        if sorted.contains(other) {
            let i = choose|i: int| 0 <= i < sorted.len() && sorted[i] == other;
            if i < front.len() {
                assert(front[i] == other);
            }
        }
        if after.contains(other) {
            let i = choose|i: int| 0 <= i < after.len() && after[i] == other;
            if i < inner.len() {
                assert(inner[i] == other);
            }
            if front.contains(other) {
                let j = choose|j: int| 0 <= j < front.len() && front[j] == other;
                assert(sorted[j] == other);
            }
            assert(sorted[sorted.len() - 1] == sorted.last());
        }
    }
}

/// Whether no item comes before an earlier one.
pub open spec fn in_order<T>(items: Seq<T>, before: spec_fn(T, T) -> bool) -> bool {
    forall|i: int, j: int|
        0 <= i < j < items.len() ==> !before(#[trigger] items[j], #[trigger] items[i])
}

proof fn lemma_inserted_in_order<T>(sorted: Seq<T>, item: T, before: spec_fn(T, T) -> bool)
    requires
        in_order(sorted, before),
        forall|a: T, b: T| #[trigger] before(a, b) ==> !before(b, a),
        forall|a: T, b: T, c: T|
            !(#[trigger] before(b, a)) && !(#[trigger] before(c, b)) ==> !before(c, a),
    ensures
        in_order(admin::insert_sorted(sorted, item, before), before),
    decreases sorted.len(),
{
    let after = admin::insert_sorted(sorted, item, before);
    if sorted.len() == 0 || !before(item, sorted.last()) {
        assert forall|i: int, j: int| 0 <= i < j < after.len() implies !before(
            #[trigger] after[j],
            #[trigger] after[i],
        ) by {
            if j == sorted.len() {
                assert(after[i] == sorted[i]);
                if i < sorted.len() - 1 {
                    assert(!before(sorted[sorted.len() - 1], sorted[i]));
                }
                assert(!before(item, sorted[sorted.len() - 1]));
            } else {
                assert(!before(sorted[j], sorted[i]));
            }
        }
    } else {
        let front = sorted.drop_last();
        assert(in_order(front, before)) by {
            assert forall|i: int, j: int| 0 <= i < j < front.len() implies !before(
                #[trigger] front[j],
                #[trigger] front[i],
            ) by {
                assert(!before(sorted[j], sorted[i]));
            }
        }
        lemma_inserted_in_order(front, item, before);
        let inner = admin::insert_sorted(front, item, before);
        assert forall|i: int, j: int| 0 <= i < j < after.len() implies !before(
            #[trigger] after[j],
            #[trigger] after[i],
        ) by {
            if j == inner.len() {
                assert(inner.contains(inner[i]));
                lemma_inserted(front, item, before, inner[i]);
                if inner[i] != item {
                    let k = choose|k: int| 0 <= k < front.len() && front[k] == inner[i];
                    assert(!before(sorted[sorted.len() - 1], sorted[k]));
                }
            } else {
                assert(!before(inner[j], inner[i]));
            }
        }
    }
}

proof fn lemma_char_numbers_differ(x: char, y: char)
    ensures
        x != y ==> x as u32 != y as u32,
{
}

proof fn lemma_text_order(a: Seq<char>, b: Seq<char>)
    ensures
        text::text_before(a, b) ==> !text::text_before(b, a),
    decreases a.len(),
{
    if a.len() > 0 && b.len() > 0 && a[0] == b[0] {
        lemma_text_order(a.skip(1), b.skip(1));
    }
}

proof fn lemma_text_order_transitive(a: Seq<char>, b: Seq<char>, c: Seq<char>)
    requires
        !text::text_before(b, a),
        !text::text_before(c, b),
    ensures
        !text::text_before(c, a),
    decreases a.len(),
{
    if a.len() > 0 {
        assert(b.len() > 0);
        assert(c.len() > 0);
        lemma_char_numbers_differ(a[0], b[0]);
        lemma_char_numbers_differ(b[0], c[0]);
        if a[0] == b[0] && b[0] == c[0] {
            lemma_text_order_transitive(a.skip(1), b.skip(1), c.skip(1));
        }
    }
}

proof fn lemma_source_statuses(m: LedgerView, rows: Seq<SourceRowView>)
    ensures
        admin::source_statuses(m, rows).len() == rows.len(),
        forall|i: int|
            0 <= i < rows.len() ==> admin::source_statuses(m, rows).contains(
                admin::source_status(m, #[trigger] rows[i]),
            ),
        in_order(admin::source_statuses(m, rows), admin::source_order()),
    decreases rows.len(),
{
    if rows.len() > 0 {
        let front = rows.drop_last();
        lemma_source_statuses(m, front);
        let inner = admin::source_statuses(m, front);
        let last = admin::source_status(m, rows.last());
        lemma_inserted(inner, last, admin::source_order(), last);
        assert forall|i: int| 0 <= i < rows.len() implies admin::source_statuses(m, rows).contains(
            admin::source_status(m, #[trigger] rows[i]),
        ) by {
            let status = admin::source_status(m, rows[i]);
            lemma_inserted(inner, last, admin::source_order(), status);
            if i < front.len() {
                assert(front[i] == rows[i]);
            }
        }
        let before = admin::source_order();
        assert forall|a: SourceStatusView, b: SourceStatusView| #[trigger]
            before(a, b) implies !before(b, a) by {
            lemma_text_order(a.source_id, b.source_id);
        }
        assert forall|a: SourceStatusView, b: SourceStatusView, c: SourceStatusView|
            !(#[trigger] before(b, a)) && !(#[trigger] before(c, b)) implies !before(c, a) by {
            lemma_text_order_transitive(a.source_id, b.source_id, c.source_id);
        }
        lemma_inserted_in_order(inner, last, before);
    }
}

proof fn lemma_sorted_subscriptions(rows: Seq<SubscriptionView>)
    ensures
        admin::sorted_subscriptions(rows).len() == rows.len(),
        forall|i: int|
            0 <= i < rows.len() ==> admin::sorted_subscriptions(rows).contains(#[trigger] rows[i]),
        in_order(admin::sorted_subscriptions(rows), admin::subscription_order()),
    decreases rows.len(),
{
    if rows.len() > 0 {
        let front = rows.drop_last();
        lemma_sorted_subscriptions(front);
        let inner = admin::sorted_subscriptions(front);
        let last = rows.last();
        let before = admin::subscription_order();
        lemma_inserted(inner, last, before, last);
        assert forall|i: int| 0 <= i < rows.len() implies admin::sorted_subscriptions(
            rows,
        ).contains(#[trigger] rows[i]) by {
            lemma_inserted(inner, last, before, rows[i]);
            if i < front.len() {
                assert(front[i] == rows[i]);
            }
        }
        lemma_inserted_in_order(inner, last, before);
    }
}

/// The status of a catalog counts what the catalog holds: the records that are active and those that
/// are deleted, the revisions, and the records that are missing; and it tells the number of the last
/// event. Every source has one entry, in the order of the sources' identities, with its generations and
/// the rows that are its own.
pub proof fn law_status_counts_what_is_there(m: LedgerView, now_ms: i64, i: int)
    requires
        0 <= i < m.sources.len(),
    ensures
        ({
            let status = admin::status_of(m, now_ms);
            let id = m.sources[i].source_id;
            &&& status.active_records == m.records.filter(
                |row: RecordView| row.state == RecordState::Active,
            ).len()
            &&& status.tombstoned_records == m.records.filter(
                |row: RecordView| row.state == RecordState::Tombstoned,
            ).len()
            &&& status.revisions == m.revisions.len()
            &&& status.tombstone_candidates == m.candidates.len()
            &&& m.events.len() == 0 ==> status.latest_event_sequence == 0
            &&& m.events.len() > 0 ==> status.latest_event_sequence == m.events.last().sequence
            &&& status.sources.len() == m.sources.len()
            &&& status.sources.contains(
                (SourceStatusView {
                    source_id: id,
                    next_generation: m.sources[i].next_generation,
                    last_complete_generation: m.sources[i].last_complete_generation,
                    known_records: m.source_records.filter(
                        |row: SourceRecordView| row.source_id == id,
                    ).len(),
                    fingerprint_observations: m.observations.filter(
                        |row: ObservationView| row.source_id == id,
                    ).len(),
                    tombstone_candidates: m.candidates.filter(
                        |row: CandidateView| row.source_id == id,
                    ).len(),
                }),
            )
            &&& forall|a: int, b: int|
                0 <= a < b < status.sources.len() ==> !text::text_before(
                    (#[trigger] status.sources[b]).source_id,
                    (#[trigger] status.sources[a]).source_id,
                )
        }),
{
    lemma_source_statuses(m, m.sources);
    let id = m.sources[i].source_id;
    assert((|row: RecordView| row.state == RecordState::Active) =~= admin::is_in(
        RecordState::Active,
    ));
    assert((|row: RecordView| row.state == RecordState::Tombstoned) =~= admin::is_in(
        RecordState::Tombstoned,
    ));
    assert((|row: SourceRecordView| row.source_id == id) =~= admin::seen_by(id));
    assert((|row: ObservationView| row.source_id == id) =~= admin::looked_at_by(id));
    assert((|row: CandidateView| row.source_id == id) =~= admin::missed_by(id));
    let statuses = admin::source_statuses(m, m.sources);
    assert forall|a: int, b: int| 0 <= a < b < statuses.len() implies !text::text_before(
        (#[trigger] statuses[b]).source_id,
        (#[trigger] statuses[a]).source_id,
    ) by {
        assert(!admin::source_order()(statuses[b], statuses[a]));
    }
}

proof fn lemma_oldest(deliveries: Seq<DeliveryView>, id: SubscriptionId)
    ensures
        match admin::oldest_unresolved(deliveries, id) {
            None => forall|k: int|
                0 <= k < deliveries.len() ==> !admin::is_unresolved(#[trigger] deliveries[k], id),
            Some(time) => {
                &&& exists|k: int|
                    0 <= k < deliveries.len() && admin::is_unresolved(#[trigger] deliveries[k], id)
                        && deliveries[k].created_at_ms == time
                &&& forall|k: int|
                    0 <= k < deliveries.len() && admin::is_unresolved(#[trigger] deliveries[k], id)
                        ==> time <= deliveries[k].created_at_ms
            },
        },
    decreases deliveries.len(),
{
    if deliveries.len() > 0 {
        let front = deliveries.drop_last();
        lemma_oldest(front, id);
        let last = deliveries.len() - 1;
        assert(deliveries[last] == deliveries.last());
        assert forall|k: int| 0 <= k < last implies #[trigger] deliveries[k] == front[k] by {}
        if let Some(time) = admin::oldest_unresolved(front, id) {
            let k = choose|k: int|
                0 <= k < front.len() && admin::is_unresolved(#[trigger] front[k], id)
                    && front[k].created_at_ms == time;
            assert(deliveries[k] == front[k]);
        }
    }
}

proof fn lemma_last_acknowledged(deliveries: Seq<DeliveryView>, id: SubscriptionId)
    ensures
        match admin::last_acknowledged(deliveries, id) {
            None => forall|k: int|
                0 <= k < deliveries.len() && (#[trigger] deliveries[k]).subscription_id == id
                    && deliveries[k].state == DeliveryState::Acknowledged
                    ==> deliveries[k].settled_at_ms is None,
            Some(time) => {
                &&& exists|k: int|
                    0 <= k < deliveries.len() && (#[trigger] deliveries[k]).subscription_id == id
                        && deliveries[k].state == DeliveryState::Acknowledged
                        && deliveries[k].settled_at_ms == Some(time)
                &&& forall|k: int|
                    0 <= k < deliveries.len() && (#[trigger] deliveries[k]).subscription_id == id
                        && deliveries[k].state == DeliveryState::Acknowledged ==> (
                    deliveries[k].settled_at_ms matches Some(settled) ==> settled <= time)
            },
        },
    decreases deliveries.len(),
{
    if deliveries.len() > 0 {
        let front = deliveries.drop_last();
        lemma_last_acknowledged(front, id);
        let last = deliveries.len() - 1;
        assert(deliveries[last] == deliveries.last());
        assert forall|k: int| 0 <= k < last implies #[trigger] deliveries[k] == front[k] by {}
        if let Some(time) = admin::last_acknowledged(front, id) {
            let k = choose|k: int|
                0 <= k < front.len() && (#[trigger] front[k]).subscription_id == id
                    && front[k].state == DeliveryState::Acknowledged && front[k].settled_at_ms
                    == Some(time);
            assert(deliveries[k] == front[k]);
        }
    }
}

/// How many deliveries of a subscription stand in this state.
pub open spec fn standing(m: LedgerView, id: SubscriptionId, state: DeliveryState) -> nat {
    m.deliveries.filter(|d: DeliveryView| d.subscription_id == id && d.state == state).len()
}

proof fn lemma_standing(m: LedgerView, id: SubscriptionId, state: DeliveryState)
    ensures
        standing(m, id, state) == leases::count_in(m.deliveries, id, state),
{
    assert((|d: DeliveryView| d.subscription_id == id && d.state == state) =~= leases::in_state(
        id,
        state,
    ));
}

/// Every subscription has one entry in the status, in the order in which they were made, and among those
/// of one time by identity: how many of its deliveries stand in each state, for how long the oldest
/// that is not resolved has waited, and when the last acknowledgement came.
pub proof fn law_status_tells_how_subscriptions_stand(
    m: LedgerView,
    now_ms: i64,
    s: int,
)
    requires
        0 <= s < m.subscriptions.len(),
    ensures
        ({
            let status = admin::status_of(m, now_ms);
            let row = m.subscriptions[s];
            let told = admin::subscription_status(m, row, now_ms);
            &&& status.subscriptions.len() == m.subscriptions.len()
            &&& status.subscriptions.contains(told)
            &&& told.id == row.id
            &&& told.consumer_id == row.consumer_id
            &&& told.mode == row.mode
            &&& told.enabled == row.enabled
            &&& told.deliveries.queued == standing(m, row.id, DeliveryState::Queued)
            &&& told.deliveries.leased == standing(m, row.id, DeliveryState::Leased)
            &&& told.deliveries.blocked == standing(m, row.id, DeliveryState::Blocked)
            &&& told.deliveries.acknowledged == standing(m, row.id, DeliveryState::Acknowledged)
            &&& told.deliveries.superseded == standing(m, row.id, DeliveryState::Superseded)
            &&& told.deliveries.ignored_by_policy == standing(m, row.id, DeliveryState::IgnoredByPolicy)
            &&& told.deliveries.dead_lettered == standing(m, row.id, DeliveryState::DeadLettered)
            &&& match told.last_acknowledged_at_ms {
                None => forall|k: int|
                    0 <= k < m.deliveries.len() && (#[trigger] m.deliveries[k]).subscription_id
                        == row.id && m.deliveries[k].state == DeliveryState::Acknowledged
                        ==> m.deliveries[k].settled_at_ms is None,
                Some(time) => {
                    &&& exists|k: int|
                        0 <= k < m.deliveries.len() && (#[trigger] m.deliveries[k]).subscription_id
                            == row.id && m.deliveries[k].state == DeliveryState::Acknowledged
                            && m.deliveries[k].settled_at_ms == Some(time)
                    &&& forall|k: int|
                        0 <= k < m.deliveries.len() && (#[trigger] m.deliveries[k]).subscription_id
                            == row.id && m.deliveries[k].state == DeliveryState::Acknowledged ==> (
                        m.deliveries[k].settled_at_ms matches Some(settled) ==> settled <= time)
                },
            }
        }),
{
    lemma_sorted_subscriptions(m.subscriptions);
    lemma_last_acknowledged(m.deliveries, m.subscriptions[s].id);
    let sorted = admin::sorted_subscriptions(m.subscriptions);
    let told = admin::subscription_status(m, m.subscriptions[s], now_ms);
    lemma_standing(m, told.id, DeliveryState::Queued);
    lemma_standing(m, told.id, DeliveryState::Leased);
    lemma_standing(m, told.id, DeliveryState::Blocked);
    lemma_standing(m, told.id, DeliveryState::Acknowledged);
    lemma_standing(m, told.id, DeliveryState::Superseded);
    lemma_standing(m, told.id, DeliveryState::IgnoredByPolicy);
    lemma_standing(m, told.id, DeliveryState::DeadLettered);
    assert(sorted.contains(m.subscriptions[s]));
    let i = choose|i: int| 0 <= i < sorted.len() && sorted[i] == m.subscriptions[s];
    let status = admin::status_of(m, now_ms);
    assert(status.subscriptions[i] == told);
}

/// Of two subscriptions the one that was made first is told first.
pub proof fn law_subscriptions_are_told_in_the_order_of_their_making(
    m: LedgerView,
    now_ms: i64,
    i: int,
    j: int,
) -> (told: (int, int))
    requires
        0 <= i < m.subscriptions.len(),
        0 <= j < m.subscriptions.len(),
        m.subscriptions[i].created_at_ms < m.subscriptions[j].created_at_ms,
    ensures
        ({
            let status = admin::status_of(m, now_ms);
            &&& 0 <= told.0 < told.1 < status.subscriptions.len()
            &&& status.subscriptions[told.0].id == m.subscriptions[i].id
            &&& status.subscriptions[told.1].id == m.subscriptions[j].id
        }),
{
    lemma_sorted_subscriptions(m.subscriptions);
    let sorted = admin::sorted_subscriptions(m.subscriptions);
    assert(sorted.contains(m.subscriptions[i]));
    assert(sorted.contains(m.subscriptions[j]));
    let a = choose|a: int| 0 <= a < sorted.len() && sorted[a] == m.subscriptions[i];
    let b = choose|b: int| 0 <= b < sorted.len() && sorted[b] == m.subscriptions[j];
    let before = admin::subscription_order();
    assert(before(sorted[a], sorted[b]));
    if b < a {
        assert(!before(sorted[a], sorted[b]));
    }
    (a, b)
}

/// The oldest delivery of a subscription that waits, is leased or is blocked has waited as long as the
/// status says, where it was made before now; and the status says nothing exactly where there is none.
pub proof fn law_status_tells_the_longest_wait(m: LedgerView, row: SubscriptionView, now_ms: i64)
    ensures
        ({
            let told = admin::subscription_status(m, row, now_ms).oldest_unresolved_age_ms;
            &&& told is None <==> forall|k: int|
                0 <= k < m.deliveries.len() && (#[trigger] m.deliveries[k]).subscription_id
                    == row.id ==> m.deliveries[k].state != DeliveryState::Queued
                    && m.deliveries[k].state != DeliveryState::Leased && m.deliveries[k].state
                    != DeliveryState::Blocked
            &&& told matches Some(age) ==> exists|k: int|
                {
                    let d = #[trigger] m.deliveries[k];
                    &&& 0 <= k < m.deliveries.len()
                    &&& d.subscription_id == row.id
                    &&& d.state == DeliveryState::Queued || d.state == DeliveryState::Leased
                        || d.state == DeliveryState::Blocked
                    &&& 0 <= now_ms - d.created_at_ms <= i64::MAX ==> age == now_ms
                        - d.created_at_ms
                    &&& forall|j: int|
                        0 <= j < m.deliveries.len() && (#[trigger] m.deliveries[j]).subscription_id
                            == row.id && (m.deliveries[j].state == DeliveryState::Queued
                            || m.deliveries[j].state == DeliveryState::Leased
                            || m.deliveries[j].state == DeliveryState::Blocked) ==> d.created_at_ms
                            <= m.deliveries[j].created_at_ms
                }
        }),
{
    lemma_oldest(m.deliveries, row.id);
    match admin::oldest_unresolved(m.deliveries, row.id) {
        None => {
            assert forall|k: int|
                0 <= k < m.deliveries.len() && (#[trigger] m.deliveries[k]).subscription_id
                    == row.id implies m.deliveries[k].state != DeliveryState::Queued
                && m.deliveries[k].state != DeliveryState::Leased && m.deliveries[k].state
                != DeliveryState::Blocked by {
                assert(!admin::is_unresolved(m.deliveries[k], row.id));
            }
        },
        Some(time) => {
            let k = choose|k: int|
                0 <= k < m.deliveries.len() && admin::is_unresolved(
                    #[trigger] m.deliveries[k],
                    row.id,
                ) && m.deliveries[k].created_at_ms == time;
            assert(m.deliveries[k].subscription_id == row.id);
            assert forall|j: int|
                0 <= j < m.deliveries.len() && (#[trigger] m.deliveries[j]).subscription_id
                    == row.id && (m.deliveries[j].state == DeliveryState::Queued
                    || m.deliveries[j].state == DeliveryState::Leased || m.deliveries[j].state
                    == DeliveryState::Blocked) implies m.deliveries[k].created_at_ms
                <= m.deliveries[j].created_at_ms by {
                assert(admin::is_unresolved(m.deliveries[j], row.id));
            }
        },
    }
}

/// A delivery that a run offers is the one that it leased: with its own bytes, at its own place below the
/// root of its role, or without any where it carries none. The run holds it and counts its bytes, and
/// nothing else changes.
pub proof fn law_run_offers_what_it_leased(
    m: LedgerView,
    run: ControlledView,
    roots: Map<Seq<char>, Seq<char>>,
    lease: LeaseView,
)
    ensures
        ({
            let (next, after, step) = controller::offered(m, run, roots, lease);
            let bytes = match lease.revision {
                Some(revision) => revision.byte_length as int,
                None => 0,
            };
            step matches Ok(RunStepView::Apply { external }) ==> {
                &&& next == m
                &&& run.admitted + bytes <= run.limits.payload_bytes
                &&& after.held matches Some(held) && held.lease == lease && held.admitted
                    == run.admitted + bytes
                &&& after == (ControlledView { held: after.held, ..run })
                &&& lease.revision is None ==> external is None
                &&& lease.revision matches Some(revision) ==> {
                    &&& external matches Some(place) && lease.location matches Some(location)
                        && roots.dom().contains(location.root_role) && place.root
                        == roots[location.root_role] && place.relative_path
                        == location.source_relative_path && place.expected == revision
                }
            }
        }),
{
}

/// A delivery within the byte budget is offered, unless its place is not known; and one whose root or
/// place is not known goes back to its queue.
pub proof fn law_run_offers_what_has_a_place(
    m: LedgerView,
    run: ControlledView,
    roots: Map<Seq<char>, Seq<char>>,
    lease: LeaseView,
)
    requires
        run.admitted + (match lease.revision {
            Some(revision) => revision.byte_length as int,
            None => 0,
        }) <= run.limits.payload_bytes,
    ensures
        ({
            let (next, after, step) = controller::offered(m, run, roots, lease);
            let back = leases::retry(m, lease, run.now_ms);
            &&& lease.revision is None ==> step == Ok::<RunStepView, ControllerErrorView>(
                RunStepView::Apply { external: None },
            )
            &&& lease.revision is Some && lease.location is None && back is Ok ==> {
                &&& step == Err::<RunStepView, _>(ControllerErrorView::MissingDeliveryLocation)
                &&& next == back->Ok_0
                &&& after == run
            }
            &&& lease.revision is Some ==> (lease.location matches Some(location) ==> {
                &&& !roots.dom().contains(location.root_role) && back is Ok ==> {
                    &&& step == Err::<RunStepView, _>(
                        ControllerErrorView::UnknownRootRole { root_role: location.root_role },
                    )
                    &&& next == back->Ok_0
                    &&& after == run
                }
                &&& roots.dom().contains(location.root_role) && payload::external_refusal(
                    roots[location.root_role],
                    location.source_relative_path,
                ) is None ==> step matches Ok(RunStepView::Apply { .. })
            })
        }),
{
}

/// A run that may still take a delivery takes the next of its own subscription, at its own time, and
/// counts it. Where none is due it stops. One that stopped, or that took as many as it may, changes
/// nothing.
pub proof fn law_run_takes_the_next_delivery(
    m: LedgerView,
    run: ControlledView,
    roots: Map<Seq<char>, Seq<char>>,
    token: LeaseToken,
)
    ensures
        ({
            let (next, after, step) = controller::advanced(m, run, roots, token);
            let leased = leases::lease(
                m,
                run.subscription_id,
                run.now_ms,
                run.limits.lease_duration_ms,
                token,
            );
            &&& run.stopped || run.taken >= run.limits.deliveries ==> {
                &&& next == m
                &&& after == run
                &&& step == Ok::<RunStepView, ControllerErrorView>(RunStepView::Finished)
            }
            &&& !run.stopped && run.taken < run.limits.deliveries ==> {
                &&& leased is Err ==> step is Err && next == m && after == run
                &&& leased matches Ok((swept, None)) ==> {
                    &&& next == swept
                    &&& after == (ControlledView { stopped: true, ..run })
                    &&& step == Ok::<RunStepView, ControllerErrorView>(RunStepView::Finished)
                }
                &&& leased matches Ok((swept, Some(lease))) ==> {
                    &&& after.taken == run.taken + 1
                    &&& after.subscription_id == run.subscription_id
                    &&& after.limits == run.limits
                    &&& after.now_ms == run.now_ms
                    &&& after.held is Some && run.held is None ==> after.held->Some_0.lease == lease
                }
            }
        }),
{
}

/// A consumer's answer settles the held delivery with its outcome, and a failure hands it back and ends
/// the run. Either way one attempt is noted, of the held delivery, and the run holds nothing more. Where
/// the catalog refuses, nothing changes.
pub proof fn law_answer_is_for_the_held_delivery(
    m: LedgerView,
    run: ControlledView,
    answer: Result<DeliveryOutcome, Seq<char>>,
)
    requires
        run.held is Some,
    ensures
        ({
            let lease = run.held->Some_0.lease;
            let (next, after, result) = controller::answered(m, run, answer);
            let change = match answer {
                Ok(outcome) => leases::settle(m, lease, outcome, run.now_ms, None),
                Err(_) => leases::retry(m, lease, run.now_ms),
            };
            &&& result is Ok <==> change is Ok
            &&& result is Err ==> next == m && after == run
            &&& result is Ok ==> {
                &&& next == change->Ok_0
                &&& after.held is None
                &&& after.attempts.len() == run.attempts.len() + 1
                &&& forall|k: int|
                    0 <= k < run.attempts.len() ==> #[trigger] after.attempts[k] == run.attempts[k]
                &&& after.attempts.last().event_id == lease.event_id
                &&& after.attempts.last().record_id == lease.record_id
                &&& after.attempts.last().record_version == lease.record_version
                &&& after.attempts.last().outcome == (match answer {
                    Ok(outcome) => OutcomeView::Settled(outcome),
                    Err(reason) => OutcomeView::Retried { reason },
                })
                &&& answer is Ok ==> after.admitted == run.held->Some_0.admitted && after.stopped
                    == run.stopped
                &&& answer is Err ==> after.admitted == run.admitted && after.stopped
                &&& after.taken == run.taken
                &&& after.limits == run.limits
                &&& after.subscription_id == run.subscription_id
                &&& after.now_ms == run.now_ms
            }
        }),
{
}

proof fn lemma_roots(entries: Seq<(Seq<char>, Seq<char>)>)
    ensures
        controller::roots_of(entries) matches Ok(roots) ==> {
            &&& forall|k: int|
                0 <= k < entries.len() ==> roots.dom().contains((#[trigger] entries[k]).0)
                    && roots[entries[k].0] == entries[k].1 && text::is_label(entries[k].0)
                    && crate::paths::absolute(entries[k].1)
            &&& forall|role: Seq<char>| #[trigger]
                roots.dom().contains(role) ==> exists|k: int|
                    0 <= k < entries.len() && (#[trigger] entries[k]).0 == role
            &&& forall|i: int, j: int|
                0 <= i < j < entries.len() ==> (#[trigger] entries[i]).0 != (
                #[trigger] entries[j]).0
        },
    decreases entries.len(),
{
    if entries.len() > 0 {
        let front = entries.drop_last();
        lemma_roots(front);
        if let Ok(roots) = controller::roots_of(entries) {
            let before = controller::roots_of(front)->Ok_0;
            assert forall|k: int| 0 <= k < front.len() implies #[trigger] entries[k] == front[k] by {}
            assert(entries[entries.len() - 1] == entries.last());
            assert forall|k: int| 0 <= k < front.len() implies before.dom().contains(
                (#[trigger] entries[k]).0,
            ) && before[entries[k].0] == entries[k].1 by {
                assert(front[k] == entries[k]);
            }
            assert forall|role: Seq<char>| #[trigger] roots.dom().contains(role) implies exists|
                k: int,
            |
                0 <= k < entries.len() && (#[trigger] entries[k]).0 == role by {
                if role == entries.last().0 {
                    assert(entries[entries.len() - 1].0 == role);
                } else {
                    assert(before.dom().contains(role));
                    let k = choose|k: int| 0 <= k < front.len() && (#[trigger] front[k]).0 == role;
                    assert(entries[k].0 == role);
                }
            }
        }
    }
}

/// The roots of a configuration are the ones that it lists, each role with its own path: every role is a
/// label, every path is absolute, and no role is listed twice.
pub proof fn law_roots_are_the_listed_ones(entries: Seq<(Seq<char>, Seq<char>)>, k: int)
    requires
        controller::roots_of(entries) is Ok,
        0 <= k < entries.len(),
    ensures
        ({
            let roots = controller::roots_of(entries)->Ok_0;
            &&& roots.dom().contains(entries[k].0)
            &&& roots[entries[k].0] == entries[k].1
            &&& text::is_label(entries[k].0)
            &&& crate::paths::absolute(entries[k].1)
            &&& forall|role: Seq<char>| #[trigger]
                roots.dom().contains(role) ==> exists|i: int|
                    0 <= i < entries.len() && (#[trigger] entries[i]).0 == role
            &&& forall|i: int|
                0 <= i < entries.len() && i != k ==> (#[trigger] entries[i]).0 != entries[k].0
        }),
{
    lemma_roots(entries);
}

/// One more root is taken exactly where its role is a label that is not set yet and its path is absolute,
/// and no other role is touched.
pub proof fn law_root_is_set_once(
    roots: Map<Seq<char>, Seq<char>>,
    role: Seq<char>,
    path: Seq<char>,
    other: Seq<char>,
)
    ensures
        ({
            let (after, result) = controller::inserted(roots, role, path);
            &&& result is Ok <==> text::is_label(role) && crate::paths::absolute(path)
                && !roots.dom().contains(role)
            &&& result is Ok ==> after.dom().contains(role) && after[role] == path
            &&& other != role ==> (after.dom().contains(other) <==> roots.dom().contains(other))
            &&& other != role && roots.dom().contains(other) ==> after[other] == roots[other]
        }),
{
}

/// Room for a file is given exactly where the file is no longer than one may be, another file may be
/// there, and the bytes of all of them stay within their bound. It counts as one file and as its bytes.
pub proof fn law_room_is_given_within_the_limits(cache: CacheView, bytes: u64)
    ensures
        ({
            let room = payload::reserved(cache, bytes);
            &&& room is Ok <==> bytes <= cache.limits.entry_bytes && cache.entries
                < cache.limits.active_entries && cache.bytes + bytes <= cache.limits.active_bytes
            &&& room matches Ok(after) ==> {
                &&& after.entries == cache.entries + 1
                &&& after.bytes == cache.bytes + bytes
                &&& after.limits == cache.limits
                &&& after.root == cache.root
            }
            &&& bytes > cache.limits.entry_bytes ==> room == Err::<CacheView, _>(
                PayloadErrorView::MaterializationLimit {
                    requested_bytes: bytes,
                    limit_bytes: cache.limits.entry_bytes,
                },
            )
            &&& room is Err && bytes <= cache.limits.entry_bytes ==> room == Err::<CacheView, _>(
                PayloadErrorView::CacheCapacityExceeded,
            )
        }),
{
}

/// The room of a file that is among those counted is given back whole.
pub proof fn law_room_is_given_back(cache: CacheView, bytes: u64)
    ensures
        ({
            let after = payload::released(cache, bytes);
            &&& cache.entries > 0 ==> after.entries == cache.entries - 1
            &&& cache.entries == 0 ==> after.entries == 0
            &&& cache.bytes >= bytes ==> after.bytes == cache.bytes - bytes
            &&& cache.bytes < bytes ==> after.bytes == 0
            &&& after.limits == cache.limits
            &&& after.root == cache.root
        }),
{
}

/// The bounds of a cache are taken exactly where none is zero and one file may not be longer than all
/// of them together; and its root exactly where it is an absolute path of a real directory.
pub proof fn law_cache_is_bounded(
    entry_bytes: u64,
    active_entries: u32,
    active_bytes: u64,
    root: Seq<char>,
    real_directory: bool,
)
    ensures
        payload::limits_refusal(entry_bytes, active_entries, active_bytes) is None <==> 0
            < entry_bytes <= active_bytes && active_entries > 0,
        payload::cache_refusal(root, real_directory) is None <==> crate::paths::absolute(root)
            && real_directory,
{
}

/// An opened payload is read exactly where it is a regular file of the expected length.
pub proof fn law_payload_is_opened_as_expected(
    expected: RevisionView,
    is_file: bool,
    byte_length: u64,
)
    ensures
        ({
            let refusal = payload::opened_refusal(expected, is_file, byte_length);
            &&& refusal is None <==> is_file && byte_length == expected.byte_length
            &&& !is_file ==> refusal == Some(PayloadErrorView::UnexpectedFileType)
            &&& is_file && byte_length != expected.byte_length ==> refusal matches Some(
                PayloadErrorView::StaleRevision { .. },
            )
        }),
{
}

/// A payload is done with exactly where its file did not change and its bytes are those of the expected
/// revision; anything else is refused as stale.
pub proof fn law_payload_ends_as_expected(reader: ReaderView, fingerprint: SourceFingerprint)
    requires
        !reader.finished,
    ensures
        ({
            let refusal = payload::finish_refusal(reader, fingerprint);
            &&& refusal is None <==> fingerprint == reader.fingerprint && domain::revision_of(
                reader.read,
            ) == reader.expected
            &&& refusal is Some ==> refusal matches Some(PayloadErrorView::StaleRevision { .. })
        }),
{
}

proof fn lemma_stem(revision: RevisionView, nonce: Uuid)
    requires
        revision.digest.len() == 32,
    ensures
        ({
            let stem = payload::lease_stem(revision, nonce);
            &&& stem.len() == 107
            &&& stem[0] == 'l'
            &&& stem.subrange(6, 70) == text::hex(revision.digest)
            &&& stem.subrange(71, 107) == ident::uuid_text(nonce)
        }),
{
    reveal_strlit("lease-");
    reveal_strlit("-");
    assert(text::hex(revision.digest).len() == 64);
    ident::law_uuid_text_reads_back(nonce);
    let stem = payload::lease_stem(revision, nonce);
    assert(stem.subrange(6, 70) =~= text::hex(revision.digest));
    assert(stem.subrange(71, 107) =~= ident::uuid_text(nonce));
}

/// The files of a cache are told apart by their nonces and digests, and a finished one from one that is
/// still written.
pub proof fn law_cache_files_are_told_apart(
    revision: RevisionView,
    nonce: Uuid,
    other: RevisionView,
    another: Uuid,
)
    requires
        revision.digest.len() == 32,
        other.digest.len() == 32,
    ensures
        payload::payload_name(revision, nonce) == payload::payload_name(other, another) ==> nonce
            == another && revision.digest == other.digest,
        payload::partial_name(revision, nonce) == payload::partial_name(other, another) ==> nonce
            == another && revision.digest == other.digest,
        payload::payload_name(revision, nonce) != payload::partial_name(other, another),
{
    lemma_stem(revision, nonce);
    lemma_stem(other, another);
    reveal_strlit(".");
    reveal_strlit(".payload");
    reveal_strlit(".partial");
    let a = payload::lease_stem(revision, nonce);
    let b = payload::lease_stem(other, another);
    assert(payload::payload_name(revision, nonce).take(107) =~= a);
    assert(payload::payload_name(other, another).take(107) =~= b);
    assert(payload::partial_name(revision, nonce).subrange(1, 108) =~= a);
    assert(payload::partial_name(other, another).subrange(1, 108) =~= b);
    assert(payload::payload_name(revision, nonce)[0] == 'l');
    assert(payload::partial_name(other, another)[0] == '.');
    if a == b {
        text::law_hex_injective(revision.digest, other.digest);
        ident::law_uuid_text_injective(nonce, another);
    }
}

/// Only a file that is named as the cache names its files is taken for one of them.
pub proof fn law_cache_owns_nothing_else(name: Seq<char>)
    requires
        payload::is_owned(name),
    ensures
        name.len() > 78,
        name.subrange(0, 6) == "lease-"@ || name.subrange(0, 7) == ".lease-"@,
        name.subrange(0, 6) == "lease-"@ ==> name.subrange(name.len() - 8, name.len() as int)
            == ".payload"@,
        name.subrange(0, 7) == ".lease-"@ ==> name.subrange(name.len() - 8, name.len() as int)
            == ".partial"@ || name.subrange(name.len() - 8, name.len() as int) == ".payload"@,
{
    reveal_strlit("lease-");
    reveal_strlit(".lease-");
    reveal_strlit(".payload");
    reveal_strlit(".partial");
    let stem = payload::owned_stem(name)->Some_0;
    assert(stem.subrange(0, 6) =~= "lease-"@);
    if let Some(front) = payload::without_suffix(name, ".payload"@) {
        assert(name.subrange(name.len() - 8, name.len() as int) =~= ".payload"@);
        assert(name.subrange(0, 6) =~= stem.subrange(0, 6));
    } else {
        assert(name.skip(1).subrange(name.len() - 9, name.len() - 1) =~= ".partial"@);
        assert(name.subrange(name.len() - 8, name.len() as int) =~= ".partial"@);
        assert(name.subrange(1, 7) =~= stem.subrange(0, 6));
        assert(name.subrange(0, 7) =~= ".lease-"@) by {
            assert(name[0] == '.');
            assert forall|i: int| 0 <= i < 6 implies name[i + 1] == #[trigger] "lease-"@[i] by {
                assert(name.subrange(1, 7)[i] == "lease-"@[i]);
            }
            assert("lease-"@[0] == 'l');
            assert("lease-"@[1] == 'e');
            assert("lease-"@[2] == 'a');
            assert("lease-"@[3] == 's');
            assert("lease-"@[4] == 'e');
            assert("lease-"@[5] == '-');
        }
        assert(name.subrange(0, 6)[0] == '.');
        assert("lease-"@[0] == 'l');
    }
}

} // verus!
