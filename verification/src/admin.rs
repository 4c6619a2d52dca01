//! Content-free operational status of a catalog.
use vstd::prelude::*;

use crate::catalog;
use crate::catalog::{CatalogError, CatalogErrorView};
use crate::delivery;
use crate::delivery::{
    DeliveryCounts, DeliveryError, DeliveryErrorView, DeliveryState, SubscriptionId,
    SubscriptionMode,
};
use crate::domain::RecordState;
use crate::leases;
use crate::leases::count_all;
use crate::ledger::{
    CandidateRow, CandidateView, Catalog, DeliveryRow, DeliveryView, LedgerView, ObservationRow,
    ObservationView, RecordRow, RecordView, SourceRecordRow, SourceRecordView, SourceRowView,
    SubscriptionView,
};
use crate::text;
use crate::text::{comes_before, concat2, same_text};

verus! {

/// Why the status could not be told.
#[derive(Debug, Eq, PartialEq)]
pub enum AdminError {
    Catalog(CatalogError),
    Delivery(DeliveryError),
    Corrupt(String),
}

/// An `AdminError` with its texts as character sequences.
pub enum AdminErrorView {
    Catalog(CatalogErrorView),
    Delivery(DeliveryErrorView),
    Corrupt(Seq<char>),
}

impl View for AdminError {
    type V = AdminErrorView;

    open spec fn view(&self) -> AdminErrorView {
        match *self {
            AdminError::Catalog(error) => AdminErrorView::Catalog(error@),
            AdminError::Delivery(error) => AdminErrorView::Delivery(error@),
            AdminError::Corrupt(m) => AdminErrorView::Corrupt(m@),
        }
    }
}

/// The message of a status error.
pub open spec fn admin_message(error: AdminErrorView) -> Seq<char> {
    match error {
        AdminErrorView::Catalog(inner) => catalog::catalog_message(inner),
        AdminErrorView::Delivery(inner) => delivery::delivery_message(inner),
        AdminErrorView::Corrupt(m) => "catalog status is corrupt: "@ + m,
    }
}

impl AdminError {
    /// The message for an operator.
    pub fn message(&self) -> (result: String)
        ensures
            result@ == admin_message(self@),
    {
        match self {
            AdminError::Catalog(inner) => inner.message(),
            AdminError::Delivery(inner) => inner.message(),
            AdminError::Corrupt(m) => concat2("catalog status is corrupt: ", m.as_str()),
        }
    }
}

/// What a source has seen.
#[derive(Debug, Eq, PartialEq)]
pub struct SourceStatus {
    pub source_id: String,
    pub next_generation: u64,
    pub last_complete_generation: u64,
    pub tracked_records: u64,
    pub fingerprint_observations: u64,
    pub tombstone_candidates: u64,
}

/// What a source has seen.
#[verifier::ext_equal]
pub struct SourceStatusView {
    pub source_id: Seq<char>,
    pub next_generation: u64,
    pub last_complete_generation: u64,
    pub known_records: nat,
    pub fingerprint_observations: nat,
    pub tombstone_candidates: nat,
}

impl View for SourceStatus {
    type V = SourceStatusView;

    open spec fn view(&self) -> SourceStatusView {
        SourceStatusView {
            source_id: self.source_id@,
            next_generation: self.next_generation,
            last_complete_generation: self.last_complete_generation,
            known_records: self.tracked_records as nat,
            fingerprint_observations: self.fingerprint_observations as nat,
            tombstone_candidates: self.tombstone_candidates as nat,
        }
    }
}

/// How a subscription's work stands.
#[derive(Debug, Eq, PartialEq)]
pub struct SubscriptionStatus {
    pub id: SubscriptionId,
    pub consumer_id: String,
    pub mode: SubscriptionMode,
    pub enabled: bool,
    pub deliveries: DeliveryCounts,
    pub oldest_unresolved_age_ms: Option<u64>,
    pub last_acknowledged_at_ms: Option<i64>,
}

/// How many deliveries stand in each state.
pub struct CountsView {
    pub queued: nat,
    pub leased: nat,
    pub blocked: nat,
    pub acknowledged: nat,
    pub superseded: nat,
    pub ignored_by_policy: nat,
    pub dead_lettered: nat,
}

/// How many deliveries of a subscription stand in each state.
pub open spec fn counts_of(deliveries: Seq<DeliveryView>, id: SubscriptionId) -> CountsView {
    CountsView {
        queued: leases::count_in(deliveries, id, DeliveryState::Queued),
        leased: leases::count_in(deliveries, id, DeliveryState::Leased),
        blocked: leases::count_in(deliveries, id, DeliveryState::Blocked),
        acknowledged: leases::count_in(deliveries, id, DeliveryState::Acknowledged),
        superseded: leases::count_in(deliveries, id, DeliveryState::Superseded),
        ignored_by_policy: leases::count_in(deliveries, id, DeliveryState::IgnoredByPolicy),
        dead_lettered: leases::count_in(deliveries, id, DeliveryState::DeadLettered),
    }
}

/// How a subscription's work stands.
#[verifier::ext_equal]
pub struct SubscriptionStatusView {
    pub id: SubscriptionId,
    pub consumer_id: Seq<char>,
    pub mode: SubscriptionMode,
    pub enabled: bool,
    pub deliveries: CountsView,
    pub oldest_unresolved_age_ms: Option<u64>,
    pub last_acknowledged_at_ms: Option<i64>,
}

impl View for SubscriptionStatus {
    type V = SubscriptionStatusView;

    open spec fn view(&self) -> SubscriptionStatusView {
        SubscriptionStatusView {
            id: self.id,
            consumer_id: self.consumer_id@,
            mode: self.mode,
            enabled: self.enabled,
            deliveries: CountsView {
                queued: self.deliveries.queued as nat,
                leased: self.deliveries.leased as nat,
                blocked: self.deliveries.blocked as nat,
                acknowledged: self.deliveries.acknowledged as nat,
                superseded: self.deliveries.superseded as nat,
                ignored_by_policy: self.deliveries.ignored_by_policy as nat,
                dead_lettered: self.deliveries.dead_lettered as nat,
            },
            oldest_unresolved_age_ms: self.oldest_unresolved_age_ms,
            last_acknowledged_at_ms: self.last_acknowledged_at_ms,
        }
    }
}

/// The status of a catalog.
#[derive(Debug, Eq, PartialEq)]
pub struct CatalogStatus {
    pub schema_version: i64,
    pub latest_event_sequence: u64,
    pub active_records: u64,
    pub tombstoned_records: u64,
    pub revisions: u64,
    pub tombstone_candidates: u64,
    pub sources: Vec<SourceStatus>,
    pub subscriptions: Vec<SubscriptionStatus>,
}

/// The status of a catalog.
#[verifier::ext_equal]
pub struct StatusView {
    pub schema_version: i64,
    pub latest_event_sequence: u64,
    pub active_records: nat,
    pub tombstoned_records: nat,
    pub revisions: nat,
    pub tombstone_candidates: nat,
    pub sources: Seq<SourceStatusView>,
    pub subscriptions: Seq<SubscriptionStatusView>,
}

impl View for CatalogStatus {
    type V = StatusView;

    open spec fn view(&self) -> StatusView {
        StatusView {
            schema_version: self.schema_version,
            latest_event_sequence: self.latest_event_sequence,
            active_records: self.active_records as nat,
            tombstoned_records: self.tombstoned_records as nat,
            revisions: self.revisions as nat,
            tombstone_candidates: self.tombstone_candidates as nat,
            sources: text::views(self.sources@),
            subscriptions: text::views(self.subscriptions@),
        }
    }
}

/// `item` among sorted items, behind all that it does not come before.
pub open spec fn insert_sorted<T>(
    sorted: Seq<T>,
    item: T,
    before: spec_fn(T, T) -> bool,
) -> Seq<T>
    decreases sorted.len(),
{
    if sorted.len() == 0 || !before(item, sorted.last()) {
        sorted.push(item)
    } else {
        insert_sorted(sorted.drop_last(), item, before).push(sorted.last())
    }
}

proof fn lemma_insert_sorted<T>(sorted: Seq<T>, item: T, before: spec_fn(T, T) -> bool, at: int)
    requires
        0 <= at <= sorted.len(),
        forall|j: int| at <= j < sorted.len() ==> before(item, #[trigger] sorted[j]),
        at > 0 ==> !before(item, sorted[at - 1]),
    ensures
        insert_sorted(sorted, item, before) == sorted.insert(at, item),
    decreases sorted.len(),
{
    if at == sorted.len() {
        assert(sorted.insert(at, item) =~= sorted.push(item));
    } else {
        let rest = sorted.drop_last();
        assert forall|j: int| at <= j < rest.len() implies before(item, #[trigger] rest[j]) by {
            assert(rest[j] == sorted[j]);
        }
        lemma_insert_sorted(rest, item, before, at);
        assert(before(item, sorted[sorted.len() - 1]));
        assert(sorted.insert(at, item) =~= rest.insert(at, item).push(sorted.last()));
    }
}

/// The records in a state.
pub open spec fn is_in(state: RecordState) -> spec_fn(RecordView) -> bool {
    |row: RecordView| row.state == state
}

/// The records that a source has seen.
pub open spec fn seen_by(source_id: Seq<char>) -> spec_fn(SourceRecordView) -> bool {
    |row: SourceRecordView| row.source_id == source_id
}

/// The files that a source has looked at.
pub open spec fn looked_at_by(source_id: Seq<char>) -> spec_fn(ObservationView) -> bool {
    |row: ObservationView| row.source_id == source_id
}

/// The records that a source misses.
pub open spec fn missed_by(source_id: Seq<char>) -> spec_fn(CandidateView) -> bool {
    |row: CandidateView| row.source_id == source_id
}

/// What a source has seen.
pub open spec fn source_status(m: LedgerView, row: SourceRowView) -> SourceStatusView {
    SourceStatusView {
        source_id: row.source_id,
        next_generation: row.next_generation,
        last_complete_generation: row.last_complete_generation,
        known_records: m.source_records.filter(seen_by(row.source_id)).len(),
        fingerprint_observations: m.observations.filter(looked_at_by(row.source_id)).len(),
        tombstone_candidates: m.candidates.filter(missed_by(row.source_id)).len(),
    }
}

/// The order of sources: by identity.
pub open spec fn source_order() -> spec_fn(SourceStatusView, SourceStatusView) -> bool {
    |a: SourceStatusView, b: SourceStatusView| text::text_before(a.source_id, b.source_id)
}

/// What the sources have seen, by identity.
pub open spec fn source_statuses(m: LedgerView, rows: Seq<SourceRowView>) -> Seq<SourceStatusView>
    decreases rows.len(),
{
    if rows.len() == 0 {
        Seq::empty()
    } else {
        insert_sorted(
            source_statuses(m, rows.drop_last()),
            source_status(m, rows.last()),
            source_order(),
        )
    }
}

/// Whether a delivery is of a subscription and still to be resolved.
pub open spec fn is_unresolved(d: DeliveryView, id: SubscriptionId) -> bool {
    d.subscription_id == id && (d.state == DeliveryState::Queued || d.state == DeliveryState::Leased
        || d.state == DeliveryState::Blocked)
}

/// When the oldest unresolved delivery of a subscription was made.
pub open spec fn oldest_unresolved(deliveries: Seq<DeliveryView>, id: SubscriptionId) -> Option<i64>
    decreases deliveries.len(),
{
    if deliveries.len() == 0 {
        None
    } else {
        let before = oldest_unresolved(deliveries.drop_last(), id);
        let d = deliveries.last();
        if !is_unresolved(d, id) {
            before
        } else {
            match before {
                Some(time) => if time <= d.created_at_ms {
                    Some(time)
                } else {
                    Some(d.created_at_ms)
                },
                None => Some(d.created_at_ms),
            }
        }
    }
}

/// When the last acknowledged delivery of a subscription was settled.
pub open spec fn last_acknowledged(deliveries: Seq<DeliveryView>, id: SubscriptionId) -> Option<i64>
    decreases deliveries.len(),
{
    if deliveries.len() == 0 {
        None
    } else {
        let before = last_acknowledged(deliveries.drop_last(), id);
        let d = deliveries.last();
        if d.subscription_id != id || d.state != DeliveryState::Acknowledged {
            before
        } else {
            match (before, d.settled_at_ms) {
                (Some(time), Some(settled)) => if time >= settled {
                    Some(time)
                } else {
                    Some(settled)
                },
                (None, settled) => settled,
                (before, None) => before,
            }
        }
    }
}

/// The milliseconds from one time to another within 64 bits. A time to come counts from the end
/// of the range.
pub open spec fn age_ms(now_ms: i64, created_at_ms: i64) -> u64 {
    let span = now_ms - created_at_ms;
    if span > i64::MAX {
        i64::MAX as u64
    } else if span >= 0 {
        span as u64
    } else if span >= i64::MIN {
        (span + 0x1_0000_0000_0000_0000) as u64
    } else {
        0x8000_0000_0000_0000
    }
}

/// How a subscription's work stands at a time.
pub open spec fn subscription_status(m: LedgerView, row: SubscriptionView, now_ms: i64) -> SubscriptionStatusView {
    SubscriptionStatusView {
        id: row.id,
        consumer_id: row.consumer_id,
        mode: row.mode,
        enabled: row.enabled,
        deliveries: counts_of(m.deliveries, row.id),
        oldest_unresolved_age_ms: match oldest_unresolved(m.deliveries, row.id) {
            Some(created_at_ms) => Some(age_ms(now_ms, created_at_ms)),
            None => None,
        },
        last_acknowledged_at_ms: last_acknowledged(m.deliveries, row.id),
    }
}

/// Whether a subscription comes before another: by the time it was made, then by identity.
pub open spec fn subscription_before(a: SubscriptionView, b: SubscriptionView) -> bool {
    a.created_at_ms < b.created_at_ms || (a.created_at_ms == b.created_at_ms && a.id.id.value
        < b.id.id.value)
}

/// The order of subscriptions.
pub open spec fn subscription_order() -> spec_fn(SubscriptionView, SubscriptionView) -> bool {
    |a: SubscriptionView, b: SubscriptionView| subscription_before(a, b)
}

/// The subscriptions in their order.
pub open spec fn sorted_subscriptions(rows: Seq<SubscriptionView>) -> Seq<SubscriptionView>
    decreases rows.len(),
{
    if rows.len() == 0 {
        Seq::empty()
    } else {
        insert_sorted(sorted_subscriptions(rows.drop_last()), rows.last(), subscription_order())
    }
}

/// The status of a catalog at a time.
pub open spec fn status_of(m: LedgerView, now_ms: i64) -> StatusView {
    StatusView {
        schema_version: 7,
        latest_event_sequence: m.latest_sequence(),
        active_records: m.records.filter(is_in(RecordState::Active)).len(),
        tombstoned_records: m.records.filter(is_in(RecordState::Tombstoned)).len(),
        revisions: m.revisions.len(),
        tombstone_candidates: m.candidates.len(),
        sources: source_statuses(m, m.sources),
        subscriptions: sorted_subscriptions(m.subscriptions).map_values(
            |row: SubscriptionView| subscription_status(m, row, now_ms),
        ),
    }
}

fn count_records(rows: &Vec<RecordRow>, state: RecordState) -> (result: u64)
    ensures
        result == text::views(rows@).filter(is_in(state)).len(),
{
    let ghost all = text::views(rows@);
    let mut count: u64 = 0;
    let mut i: usize = 0;
    proof {
        reveal(Seq::filter);
        assert(all.take(0).filter(is_in(state)) =~= Seq::empty());
    }
    while i < rows.len()
        invariant
            i <= rows@.len(),
            all == text::views(rows@),
            count <= i,
            count == all.take(i as int).filter(is_in(state)).len(),
        decreases rows@.len() - i,
    {
        proof {
            assert(all.take(i + 1) =~= all.take(i as int).push(all[i as int]));
            all.take(i as int).lemma_filter_push(all[i as int], is_in(state));
            assert(rows@[i as int]@ == all[i as int]);
        }
        if rows[i].state == state {
            count += 1;
        }
        i += 1;
    }
    assert(all.take(rows@.len() as int) =~= all);
    count
}

fn count_seen(rows: &Vec<SourceRecordRow>, source_id: &str) -> (result: u64)
    ensures
        result == text::views(rows@).filter(seen_by(source_id@)).len(),
{
    let ghost all = text::views(rows@);
    let mut count: u64 = 0;
    let mut i: usize = 0;
    proof {
        reveal(Seq::filter);
        assert(all.take(0).filter(seen_by(source_id@)) =~= Seq::empty());
    }
    while i < rows.len()
        invariant
            i <= rows@.len(),
            all == text::views(rows@),
            count <= i,
            count == all.take(i as int).filter(seen_by(source_id@)).len(),
        decreases rows@.len() - i,
    {
        proof {
            assert(all.take(i + 1) =~= all.take(i as int).push(all[i as int]));
            all.take(i as int).lemma_filter_push(all[i as int], seen_by(source_id@));
            assert(rows@[i as int]@ == all[i as int]);
        }
        if same_text(rows[i].source_id.as_str(), source_id) {
            count += 1;
        }
        i += 1;
    }
    assert(all.take(rows@.len() as int) =~= all);
    count
}

fn count_looked_at(rows: &Vec<ObservationRow>, source_id: &str) -> (result: u64)
    ensures
        result == text::views(rows@).filter(looked_at_by(source_id@)).len(),
{
    let ghost all = text::views(rows@);
    let mut count: u64 = 0;
    let mut i: usize = 0;
    proof {
        reveal(Seq::filter);
        assert(all.take(0).filter(looked_at_by(source_id@)) =~= Seq::empty());
    }
    while i < rows.len()
        invariant
            i <= rows@.len(),
            all == text::views(rows@),
            count <= i,
            count == all.take(i as int).filter(looked_at_by(source_id@)).len(),
        decreases rows@.len() - i,
    {
        proof {
            assert(all.take(i + 1) =~= all.take(i as int).push(all[i as int]));
            all.take(i as int).lemma_filter_push(all[i as int], looked_at_by(source_id@));
            assert(rows@[i as int]@ == all[i as int]);
        }
        if same_text(rows[i].source_id.as_str(), source_id) {
            count += 1;
        }
        i += 1;
    }
    assert(all.take(rows@.len() as int) =~= all);
    count
}

fn count_missed(rows: &Vec<CandidateRow>, source_id: &str) -> (result: u64)
    ensures
        result == text::views(rows@).filter(missed_by(source_id@)).len(),
{
    let ghost all = text::views(rows@);
    let mut count: u64 = 0;
    let mut i: usize = 0;
    proof {
        reveal(Seq::filter);
        assert(all.take(0).filter(missed_by(source_id@)) =~= Seq::empty());
    }
    while i < rows.len()
        invariant
            i <= rows@.len(),
            all == text::views(rows@),
            count <= i,
            count == all.take(i as int).filter(missed_by(source_id@)).len(),
        decreases rows@.len() - i,
    {
        proof {
            assert(all.take(i + 1) =~= all.take(i as int).push(all[i as int]));
            all.take(i as int).lemma_filter_push(all[i as int], missed_by(source_id@));
            assert(rows@[i as int]@ == all[i as int]);
        }
        if same_text(rows[i].source_id.as_str(), source_id) {
            count += 1;
        }
        i += 1;
    }
    assert(all.take(rows@.len() as int) =~= all);
    count
}

fn list_sources(catalog: &Catalog) -> (result: Vec<SourceStatus>)
    ensures
        text::views(result@) == source_statuses(catalog@, catalog@.sources),
{
    let ghost m = catalog@;
    let mut list: Vec<SourceStatus> = Vec::new();
    let mut i: usize = 0;
    assert(m.sources.take(0) =~= Seq::empty());
    assert(text::views(list@) =~= Seq::empty());
    while i < catalog.sources.len()
        invariant
            i <= catalog.sources@.len(),
            m == catalog@,
            text::views(list@) == source_statuses(m, m.sources.take(i as int)),
        decreases catalog.sources@.len() - i,
    {
        let row = &catalog.sources[i];
        let status = SourceStatus {
            source_id: row.source_id.clone(),
            next_generation: row.next_generation,
            last_complete_generation: row.last_complete_generation,
            tracked_records: count_seen(&catalog.source_records, row.source_id.as_str()),
            fingerprint_observations: count_looked_at(
                &catalog.observations,
                row.source_id.as_str(),
            ),
            tombstone_candidates: count_missed(&catalog.candidates, row.source_id.as_str()),
        };
        proof {
            assert(m.sources.take(i + 1).drop_last() =~= m.sources.take(i as int));
            assert(m.sources.take(i + 1).last() == row@);
            assert(status@ =~= source_status(m, row@));
        }
        let mut at: usize = list.len();
        let ghost sorted = text::views(list@);
        while at > 0 && comes_before(
            status.source_id.as_str(),
            list[at - 1].source_id.as_str(),
        )
            invariant
                at <= list@.len(),
                sorted == text::views(list@),
                forall|j: int|
                    at <= j < sorted.len() ==> source_order()(status@, #[trigger] sorted[j]),
            decreases at,
        {
            assert(sorted[at - 1] == list@[at - 1]@);
            at -= 1;
        }
        proof {
            if at > 0 {
                assert(sorted[at - 1] == list@[at - 1]@);
            }
            lemma_insert_sorted(sorted, status@, source_order(), at as int);
            assert(text::views(list@.insert(at as int, status)) =~= sorted.insert(
                at as int,
                status@,
            ));
        }
        list.insert(at, status);
        i += 1;
    }
    assert(m.sources.take(catalog.sources@.len() as int) =~= m.sources);
    list
}

fn find_oldest(rows: &Vec<DeliveryRow>, id: SubscriptionId) -> (result: Option<i64>)
    ensures
        result == oldest_unresolved(text::views(rows@), id),
{
    let ghost all = text::views(rows@);
    let mut oldest: Option<i64> = None;
    let mut i: usize = 0;
    assert(all.take(0) =~= Seq::empty());
    while i < rows.len()
        invariant
            i <= rows@.len(),
            all == text::views(rows@),
            oldest == oldest_unresolved(all.take(i as int), id),
        decreases rows@.len() - i,
    {
        let row = &rows[i];
        proof {
            assert(all.take(i + 1).drop_last() =~= all.take(i as int));
            assert(all.take(i + 1).last() == row@);
        }
        if row.subscription_id == id && (row.state == DeliveryState::Queued || row.state
            == DeliveryState::Leased || row.state == DeliveryState::Blocked) {
            oldest =
            match oldest {
                Some(time) => if time <= row.created_at_ms {
                    Some(time)
                } else {
                    Some(row.created_at_ms)
                },
                None => Some(row.created_at_ms),
            };
        }
        i += 1;
    }
    assert(all.take(rows@.len() as int) =~= all);
    oldest
}

fn find_last_acknowledged(rows: &Vec<DeliveryRow>, id: SubscriptionId) -> (result: Option<i64>)
    ensures
        result == last_acknowledged(text::views(rows@), id),
{
    let ghost all = text::views(rows@);
    let mut last: Option<i64> = None;
    let mut i: usize = 0;
    assert(all.take(0) =~= Seq::empty());
    while i < rows.len()
        invariant
            i <= rows@.len(),
            all == text::views(rows@),
            last == last_acknowledged(all.take(i as int), id),
        decreases rows@.len() - i,
    {
        let row = &rows[i];
        proof {
            assert(all.take(i + 1).drop_last() =~= all.take(i as int));
            assert(all.take(i + 1).last() == row@);
        }
        if row.subscription_id == id && row.state == DeliveryState::Acknowledged {
            last =
            match (last, row.settled_at_ms) {
                (Some(time), Some(settled)) => if time >= settled {
                    Some(time)
                } else {
                    Some(settled)
                },
                (None, settled) => settled,
                (before, None) => before,
            };
        }
        i += 1;
    }
    assert(all.take(rows@.len() as int) =~= all);
    last
}

/// The milliseconds from one time to another within 64 bits.
pub fn elapsed_age_ms(now_ms: i64, created_at_ms: i64) -> (result: u64)
    ensures
        result == age_ms(now_ms, created_at_ms),
{
    let span: i128 = now_ms as i128 - created_at_ms as i128;
    if span > 0x7fff_ffff_ffff_ffff {
        0x7fff_ffff_ffff_ffff
    } else if span >= 0 {
        span as u64
    } else if span >= -0x8000_0000_0000_0000 {
        (span + 0x1_0000_0000_0000_0000) as u64
    } else {
        0x8000_0000_0000_0000
    }
}

fn order_subscriptions(catalog: &Catalog) -> (result: Vec<usize>)
    ensures
        forall|i: int|
            0 <= i < result@.len() ==> #[trigger] result@[i] < catalog.subscriptions@.len(),
        result@.map_values(|at: usize| catalog@.subscriptions[at as int]) == sorted_subscriptions(
            catalog@.subscriptions,
        ),
{
    let ghost rows = catalog@.subscriptions;
    let ghost pick = |at: usize| rows[at as int];
    let mut order: Vec<usize> = Vec::new();
    let mut i: usize = 0;
    assert(rows.take(0) =~= Seq::empty());
    assert(order@.map_values(pick) =~= Seq::empty());
    while i < catalog.subscriptions.len()
        invariant
            i <= catalog.subscriptions@.len(),
            rows == catalog@.subscriptions,
            rows == text::views(catalog.subscriptions@),
            pick == (|at: usize| rows[at as int]),
            forall|j: int| 0 <= j < order@.len() ==> #[trigger] order@[j] < i,
            order@.map_values(pick) == sorted_subscriptions(rows.take(i as int)),
        decreases catalog.subscriptions@.len() - i,
    {
        let created_at_ms: i64 = catalog.subscriptions[i].created_at_ms;
        let number: u128 = catalog.subscriptions[i].id.as_uuid().as_u128();
        let ghost sorted = order@.map_values(pick);
        let ghost item = rows[i as int];
        proof {
            assert(rows.take(i + 1).drop_last() =~= rows.take(i as int));
            assert(rows.take(i + 1).last() == item);
            assert(item == catalog.subscriptions@[i as int]@);
        }
        let mut at: usize = order.len();
        let mut searching: bool = true;
        while searching && at > 0
            invariant
                at <= order@.len(),
                i < catalog.subscriptions@.len(),
                rows == text::views(catalog.subscriptions@),
                pick == (|at: usize| rows[at as int]),
                sorted == order@.map_values(pick),
                item == rows[i as int],
                created_at_ms == item.created_at_ms,
                number == item.id.id.value,
                forall|j: int| 0 <= j < order@.len() ==> #[trigger] order@[j] < i,
                forall|j: int|
                    at <= j < sorted.len() ==> subscription_order()(item, #[trigger] sorted[j]),
                !searching ==> at > 0 && !subscription_order()(item, sorted[at - 1]),
            decreases at + (if searching { 1int } else { 0int }),
        {
            let other: usize = order[at - 1];
            let other_created: i64 = catalog.subscriptions[other].created_at_ms;
            let other_number: u128 = catalog.subscriptions[other].id.as_uuid().as_u128();
            proof {
                assert(sorted[at - 1] == rows[other as int]);
                assert(rows[other as int] == catalog.subscriptions@[other as int]@);
            }
            if created_at_ms < other_created || (created_at_ms == other_created && number
                < other_number) {
                at -= 1;
            } else {
                searching = false;
            }
        }
        proof {
            lemma_insert_sorted(sorted, item, subscription_order(), at as int);
            assert(order@.insert(at as int, i).map_values(pick) =~= sorted.insert(
                at as int,
                item,
            ));
        }
        order.insert(at, i);
        i += 1;
    }
    assert(rows.take(catalog.subscriptions@.len() as int) =~= rows);
    order
}

fn list_subscriptions(catalog: &Catalog, now_ms: i64) -> (result: Vec<SubscriptionStatus>)
    ensures
        text::views(result@) == sorted_subscriptions(catalog@.subscriptions).map_values(
            |row: SubscriptionView| subscription_status(catalog@, row, now_ms),
        ),
{
    let order = order_subscriptions(catalog);
    let ghost m = catalog@;
    let ghost expected = sorted_subscriptions(m.subscriptions).map_values(
        |row: SubscriptionView| subscription_status(m, row, now_ms),
    );
    let mut list: Vec<SubscriptionStatus> = Vec::new();
    let mut i: usize = 0;
    assert(text::views(list@) =~= expected.take(0));
    while i < order.len()
        invariant
            i <= order@.len(),
            m == catalog@,
            expected == sorted_subscriptions(m.subscriptions).map_values(
                |row: SubscriptionView| subscription_status(m, row, now_ms),
            ),
            order@.map_values(|at: usize| m.subscriptions[at as int]) == sorted_subscriptions(
                m.subscriptions,
            ),
            forall|j: int|
                0 <= j < order@.len() ==> #[trigger] order@[j] < catalog.subscriptions@.len(),
            text::views(list@) == expected.take(i as int),
        decreases order@.len() - i,
    {
        let at: usize = order[i];
        let row = &catalog.subscriptions[at];
        let oldest = find_oldest(&catalog.deliveries, row.id);
        let status = SubscriptionStatus {
            id: row.id,
            consumer_id: row.consumer_id.clone(),
            mode: row.mode,
            enabled: row.enabled,
            deliveries: count_all(&catalog.deliveries, row.id),
            oldest_unresolved_age_ms: match oldest {
                Some(created_at_ms) => Some(elapsed_age_ms(now_ms, created_at_ms)),
                None => None,
            },
            last_acknowledged_at_ms: find_last_acknowledged(&catalog.deliveries, row.id),
        };
        proof {
            let mapped = order@.map_values(|at: usize| m.subscriptions[at as int]);
            assert(mapped[i as int] == m.subscriptions[at as int]);
            assert(m.subscriptions[at as int] == row@);
            assert(expected[i as int] == subscription_status(m, row@, now_ms));
            assert(status@ =~= subscription_status(m, row@, now_ms));
            text::lemma_views_push(list@, status);
            assert(expected.take(i + 1) =~= expected.take(i as int).push(expected[i as int]));
        }
        list.push(status);
        i += 1;
    }
    proof {
        let mapped = order@.map_values(|at: usize| m.subscriptions[at as int]);
        assert(mapped.len() == order@.len());
        assert(expected.take(order@.len() as int) =~= expected);
    }
    list
}

/// The status of a catalog. The time is the caller's, so that the status can be reproduced.
pub fn catalog_status(catalog: &Catalog, now_ms: i64) -> (result: Result<CatalogStatus, AdminError>)
    ensures
        result is Ok,
        result->Ok_0@ == status_of(catalog@, now_ms),
{
    let schema_version: i64 = match catalog.schema_version() {
        Ok(version) => version,
        Err(error) => {
            return Err(AdminError::Catalog(error));
        },
    };
    let latest_event_sequence: u64 = match catalog.latest_event_sequence() {
        Ok(sequence) => sequence,
        Err(error) => {
            return Err(AdminError::Catalog(error));
        },
    };
    let status = CatalogStatus {
        schema_version,
        latest_event_sequence,
        active_records: count_records(&catalog.records, RecordState::Active),
        tombstoned_records: count_records(&catalog.records, RecordState::Tombstoned),
        revisions: catalog.revisions.len() as u64,
        tombstone_candidates: catalog.candidates.len() as u64,
        sources: list_sources(catalog),
        subscriptions: list_subscriptions(catalog, now_ms),
    };
    assert(status@ =~= status_of(catalog@, now_ms));
    Ok(status)
}

} // verus!
