//! Leasing queued deliveries in record order, and settling, retrying or blocking them.
use crate::catalog::MAX_STORED;
use crate::consistency;
use crate::delivery::{
    outcome_state, retry_not_before_ms, DeliveryCounts, DeliveryError, DeliveryErrorView,
    DeliveryLease, DeliveryState, LeaseToken, LeaseView, RetryPolicy, SubscriptionId,
};
use crate::domain::{copy_location, DeliveryOutcome};
use crate::ident;
use crate::laws;
use crate::ledger;
use crate::ledger::{
    Catalog, DeliveryRow, DeliveryView, LedgerView, SubscriptionRow, SubscriptionView,
};
use crate::text;
use vstd::prelude::*;

verus! {

/// Whether a lease of this subscription has run out.
pub open spec fn expired(d: DeliveryView, subscription_id: SubscriptionId, now_ms: i64) -> bool {
    &&& d.subscription_id == subscription_id
    &&& d.state == DeliveryState::Leased
    &&& d.lease_expires_at_ms matches Some(expires) && expires <= now_ms
}

/// A delivery given up after its last attempt.
pub open spec fn given_up(d: DeliveryView, now_ms: i64, reason: Seq<char>) -> DeliveryView {
    DeliveryView {
        state: DeliveryState::DeadLettered,
        lease_token: None,
        lease_expires_at_ms: None,
        settled_at_ms: Some(now_ms),
        settlement_reason: Some(reason),
        ..d
    }
}

/// A delivery put back in the queue until `not_before_ms`.
pub open spec fn requeued(d: DeliveryView, not_before_ms: i64) -> DeliveryView {
    DeliveryView {
        state: DeliveryState::Queued,
        lease_token: None,
        lease_expires_at_ms: None,
        not_before_ms,
        settled_at_ms: None,
        settlement_reason: None,
        ..d
    }
}

/// A delivery behind a failed attempt: given up where the policy is exhausted, else requeued.
pub open spec fn after_failure(
    d: DeliveryView,
    policy: RetryPolicy,
    now_ms: i64,
    not_before_ms: i64,
    reason: Seq<char>,
) -> DeliveryView {
    if d.attempts >= policy.max_attempts {
        given_up(d, now_ms, reason)
    } else {
        requeued(d, not_before_ms)
    }
}

/// A delivery behind the sweep of expired leases.
pub open spec fn swept(
    d: DeliveryView,
    subscription_id: SubscriptionId,
    policy: RetryPolicy,
    now_ms: i64,
) -> DeliveryView {
    if expired(d, subscription_id, now_ms) {
        after_failure(
            d,
            policy,
            now_ms,
            crate::delivery::not_before(policy, d.attempts, now_ms)->Some_0,
            "retry policy exhausted after lease expiry"@,
        )
    } else {
        d
    }
}

/// All deliveries behind the sweep of one subscription's expired leases.
pub open spec fn sweep(
    deliveries: Seq<DeliveryView>,
    subscription_id: SubscriptionId,
    policy: RetryPolicy,
    now_ms: i64,
) -> Seq<DeliveryView> {
    Seq::new(
        deliveries.len(),
        |i: int| swept(deliveries[i], subscription_id, policy, now_ms),
    )
}

/// Whether the next attempt of every expired lease has a time that can be written.
pub open spec fn sweep_possible(
    deliveries: Seq<DeliveryView>,
    subscription_id: SubscriptionId,
    policy: RetryPolicy,
    now_ms: i64,
) -> bool {
    forall|i: int|
        0 <= i < deliveries.len() && expired(#[trigger] deliveries[i], subscription_id, now_ms)
            ==> crate::delivery::not_before(policy, deliveries[i].attempts, now_ms) is Some
}

/// Whether a delivery of this subscription stands in this state.
pub open spec fn in_state(subscription_id: SubscriptionId, state: DeliveryState) -> spec_fn(
    DeliveryView,
) -> bool {
    |d: DeliveryView| d.subscription_id == subscription_id && d.state == state
}

/// How many deliveries of a subscription stand in a state.
pub open spec fn count_in(
    deliveries: Seq<DeliveryView>,
    subscription_id: SubscriptionId,
    state: DeliveryState,
) -> nat {
    deliveries.filter(in_state(subscription_id, state)).len()
}

/// Whether delivery `prior` holds back `d`: an earlier version of the same record, for the same
/// subscription, that has not reached an outcome which releases later versions.
pub open spec fn holds_back(prior: DeliveryView, d: DeliveryView) -> bool {
    &&& prior.subscription_id == d.subscription_id
    &&& prior.record_id == d.record_id
    &&& prior.record_version < d.record_version
    &&& !crate::delivery::state_advances(prior.state)
}

/// Whether the delivery at `at` may be leased now.
pub open spec fn eligible(
    deliveries: Seq<DeliveryView>,
    subscription_id: SubscriptionId,
    now_ms: i64,
    at: int,
) -> bool {
    &&& 0 <= at < deliveries.len()
    &&& deliveries[at].subscription_id == subscription_id
    &&& deliveries[at].state == DeliveryState::Queued
    &&& deliveries[at].not_before_ms <= now_ms
    &&& forall|k: int|
        0 <= k < deliveries.len() ==> !holds_back(#[trigger] deliveries[k], deliveries[at])
}

/// Archive order: events by sequence number, snapshots behind them, then by delivery number.
pub open spec fn precedes(a: DeliveryView, b: DeliveryView) -> bool {
    match (a.event_sequence, b.event_sequence) {
        (Some(x), Some(y)) => x < y || (x == y && a.id < b.id),
        (Some(_), None) => true,
        (None, Some(_)) => false,
        (None, None) => a.id < b.id,
    }
}

/// Whether the delivery at `at` is the first in archive order that may be leased.
pub open spec fn is_next(
    deliveries: Seq<DeliveryView>,
    subscription_id: SubscriptionId,
    now_ms: i64,
    at: int,
) -> bool {
    &&& eligible(deliveries, subscription_id, now_ms, at)
    &&& forall|k: int|
        #[trigger] eligible(deliveries, subscription_id, now_ms, k) && k != at ==> precedes(
            deliveries[at],
            deliveries[k],
        )
}

/// The first delivery in archive order that may be leased.
pub open spec fn next_candidate(
    deliveries: Seq<DeliveryView>,
    subscription_id: SubscriptionId,
    now_ms: i64,
) -> Option<int> {
    if exists|at: int| is_next(deliveries, subscription_id, now_ms, at) {
        Some(choose|at: int| is_next(deliveries, subscription_id, now_ms, at))
    } else {
        None
    }
}

/// A delivery under a new lease.
pub open spec fn leased(d: DeliveryView, token: LeaseToken, expires_at_ms: i64) -> DeliveryView {
    DeliveryView {
        state: DeliveryState::Leased,
        attempts: (d.attempts + 1) as u32,
        lease_token: Some(token),
        lease_expires_at_ms: Some(expires_at_ms),
        ..d
    }
}

/// The lease of a delivery as its holder sees it.
pub open spec fn lease_of(
    m: LedgerView,
    d: DeliveryView,
    token: LeaseToken,
    expires_at_ms: i64,
) -> LeaseView {
    LeaseView {
        delivery_id: d.id,
        subscription_id: d.subscription_id,
        event_id: d.event_id,
        event_sequence: d.event_sequence,
        record_id: d.record_id,
        record_version: d.record_version,
        kind: d.kind,
        revision_id: d.revision_id,
        revision: m.revision_bytes(d.revision_id),
        location: d.location,
        is_snapshot: d.is_snapshot,
        attempt: (d.attempts + 1) as u32,
        token,
        expires_at_ms,
    }
}

/// No earlier version of a lease's record still waits for an outcome: each is acknowledged,
/// superseded or ignored by policy.
pub open spec fn in_record_order(m: LedgerView, held: LeaseView) -> bool {
    forall|k: int|
        0 <= k < m.deliveries.len() && (#[trigger] m.deliveries[k]).subscription_id
            == held.subscription_id && m.deliveries[k].record_id == held.record_id
            && m.deliveries[k].record_version < held.record_version
            ==> crate::delivery::state_advances(m.deliveries[k].state)
}

/// A subscription never holds leases on two versions of one record.
pub open spec fn one_lease_per_record(m: LedgerView) -> bool {
    forall|a: int, b: int|
        0 <= a < b < m.deliveries.len() && (#[trigger] m.deliveries[a]).state
            == DeliveryState::Leased && (#[trigger] m.deliveries[b]).state == DeliveryState::Leased
            && m.deliveries[a].subscription_id == m.deliveries[b].subscription_id
            ==> m.deliveries[a].record_id != m.deliveries[b].record_id
}

/// The catalog with these deliveries.
pub open spec fn with_deliveries(m: LedgerView, deliveries: Seq<DeliveryView>) -> LedgerView {
    LedgerView { deliveries, ..m }
}

/// What leasing the next delivery of a subscription comes to.
pub open spec fn lease(
    m: LedgerView,
    subscription_id: SubscriptionId,
    now_ms: i64,
    duration_ms: u64,
    token: LeaseToken,
) -> Result<(LedgerView, Option<LeaseView>), DeliveryErrorView> {
    if duration_ms == 0 || now_ms + duration_ms > i64::MAX || duration_ms > i64::MAX {
        Err(DeliveryErrorView::InvalidLeaseDuration)
    } else {
        match m.subscription_at(subscription_id) {
            None => Err(DeliveryErrorView::UnknownSubscription),
            Some(s) => if !m.subscriptions[s].enabled {
                Ok((m, None))
            } else {
                lease_enabled(
                    m,
                    m.subscriptions[s],
                    subscription_id,
                    now_ms,
                    (now_ms + duration_ms) as i64,
                    token,
                )
            },
        }
    }
}

/// What leasing the next delivery of an enabled subscription comes to.
pub open spec fn lease_enabled(
    m: LedgerView,
    subscription: SubscriptionView,
    subscription_id: SubscriptionId,
    now_ms: i64,
    expires_at_ms: i64,
    token: LeaseToken,
) -> Result<(LedgerView, Option<LeaseView>), DeliveryErrorView> {
    let policy = subscription.retry_policy;
    let queue = sweep(m.deliveries, subscription_id, policy, now_ms);
    if !sweep_possible(m.deliveries, subscription_id, policy, now_ms) {
        Err(DeliveryErrorView::InvalidLeaseDuration)
    } else if count_in(queue, subscription_id, DeliveryState::Leased)
        >= subscription.max_active_leases {
        Ok((with_deliveries(m, queue), None))
    } else {
        match next_candidate(queue, subscription_id, now_ms) {
            None => Ok((with_deliveries(m, queue), None)),
            Some(at) => if queue[at].attempts == u32::MAX {
                Err(DeliveryErrorView::Corrupt("delivery attempt overflow"@))
            } else {
                Ok(
                    (
                        with_deliveries(
                            m,
                            queue.update(at, leased(queue[at], token, expires_at_ms)),
                        ),
                        Some(lease_of(m, queue[at], token, expires_at_ms)),
                    ),
                )
            },
        }
    }
}

/// The row of a lease that is still held: same delivery, subscription and token, and not expired.
pub open spec fn is_held(held: LeaseView, now_ms: i64) -> spec_fn(DeliveryView) -> bool {
    |d: DeliveryView|
        {
            &&& d.id == held.delivery_id
            &&& d.subscription_id == held.subscription_id
            &&& d.state == DeliveryState::Leased
            &&& d.lease_token == Some(held.token)
            &&& d.lease_expires_at_ms matches Some(expires) && expires > now_ms
        }
}

/// What an operation on a held lease comes to, `next` being its row afterwards.
pub open spec fn on_held(
    m: LedgerView,
    held: LeaseView,
    now_ms: i64,
    next: spec_fn(DeliveryView) -> DeliveryView,
) -> Result<LedgerView, DeliveryErrorView> {
    if held.delivery_id > MAX_STORED {
        Err(DeliveryErrorView::Corrupt("delivery ID"@ + " exceeds SQLite range"@))
    } else {
        match ledger::find_first(m.deliveries, is_held(held, now_ms)) {
            Some(at) => Ok(with_deliveries(m, m.deliveries.update(at, next(m.deliveries[at])))),
            None => Err(DeliveryErrorView::StaleLease),
        }
    }
}

/// A delivery settled with this outcome.
pub open spec fn settled(
    outcome: DeliveryOutcome,
    at_ms: i64,
    reason: Option<Seq<char>>,
) -> spec_fn(DeliveryView) -> DeliveryView {
    |d: DeliveryView|
        DeliveryView {
            state: crate::delivery::state_of_outcome(outcome),
            lease_token: None,
            lease_expires_at_ms: None,
            settled_at_ms: Some(at_ms),
            settlement_reason: reason,
            ..d
        }
}

/// A delivery behind a failed attempt of its consumer.
pub open spec fn retried(policy: RetryPolicy, now_ms: i64, not_before_ms: i64) -> spec_fn(
    DeliveryView,
) -> DeliveryView {
    |d: DeliveryView|
        after_failure(d, policy, now_ms, not_before_ms, "retry policy exhausted"@)
}

/// A delivery paused until an operator intervenes.
pub open spec fn blocked(reason: Seq<char>) -> spec_fn(DeliveryView) -> DeliveryView {
    |d: DeliveryView|
        DeliveryView {
            state: DeliveryState::Blocked,
            lease_token: None,
            lease_expires_at_ms: None,
            settled_at_ms: None,
            settlement_reason: Some(reason),
            ..d
        }
}

/// What settling a lease comes to.
pub open spec fn settle(
    m: LedgerView,
    held: LeaseView,
    outcome: DeliveryOutcome,
    at_ms: i64,
    reason: Option<Seq<char>>,
) -> Result<LedgerView, DeliveryErrorView> {
    on_held(m, held, at_ms, settled(outcome, at_ms, reason))
}

/// What handing a lease back for another attempt comes to.
pub open spec fn retry(m: LedgerView, held: LeaseView, now_ms: i64) -> Result<
    LedgerView,
    DeliveryErrorView,
> {
    match m.subscription_at(held.subscription_id) {
        None => Err(DeliveryErrorView::UnknownSubscription),
        Some(s) => {
            let policy = m.subscriptions[s].retry_policy;
            match crate::delivery::not_before(policy, held.attempt, now_ms) {
                None => Err(DeliveryErrorView::InvalidLeaseDuration),
                Some(time) => on_held(m, held, now_ms, retried(policy, now_ms, time)),
            }
        },
    }
}

/// What blocking a lease comes to.
pub open spec fn block(m: LedgerView, held: LeaseView, now_ms: i64, reason: Seq<char>) -> Result<
    LedgerView,
    DeliveryErrorView,
> {
    on_held(m, held, now_ms, blocked(reason))
}

/// What an operation came to, against what it should.
pub open spec fn update_outcome(
    expected: Result<LedgerView, DeliveryErrorView>,
    before: LedgerView,
    after: LedgerView,
    result: Result<(), DeliveryError>,
) -> bool {
    match expected {
        Ok(next) => result is Ok && after == next,
        Err(expected_error) => {
            &&& result matches Err(error)
            &&& error@ == expected_error
            &&& after == before
        },
    }
}

/// What leasing came to, against what it should.
pub open spec fn lease_outcome(
    expected: Result<(LedgerView, Option<LeaseView>), DeliveryErrorView>,
    before: LedgerView,
    after: LedgerView,
    result: Result<Option<DeliveryLease>, DeliveryError>,
) -> bool {
    match expected {
        Ok((next, made)) => {
            &&& result matches Ok(found)
            &&& text::view_option(found) == made
            &&& after == next
        },
        Err(expected_error) => {
            &&& result matches Err(error)
            &&& error@ == expected_error
            &&& after == before
        },
    }
}

fn copy_reason(reason: &Option<String>) -> (result: Option<String>)
    ensures
        text::view_option(result) == text::view_option(*reason),
{
    match reason {
        Some(value) => Some(value.clone()),
        None => None,
    }
}

impl Clone for DeliveryRow {
    fn clone(&self) -> (result: DeliveryRow)
        ensures
            result@ == self@,
    {
        DeliveryRow {
            id: self.id,
            subscription_id: self.subscription_id,
            event_id: self.event_id,
            event_sequence: self.event_sequence,
            record_id: self.record_id,
            record_version: self.record_version,
            kind: self.kind,
            revision_id: self.revision_id,
            location: copy_location(&self.location),
            is_snapshot: self.is_snapshot,
            state: self.state,
            attempts: self.attempts,
            lease_token: self.lease_token,
            lease_expires_at_ms: self.lease_expires_at_ms,
            not_before_ms: self.not_before_ms,
            settled_at_ms: self.settled_at_ms,
            settlement_reason: copy_reason(&self.settlement_reason),
            created_at_ms: self.created_at_ms,
        }
    }
}

/// A delivery behind a failed attempt.
fn failed_row(
    row: &DeliveryRow,
    policy: &RetryPolicy,
    now_ms: i64,
    not_before_ms: i64,
    reason: &str,
) -> (result: DeliveryRow)
    ensures
        result@ == after_failure(row@, *policy, now_ms, not_before_ms, reason@),
{
    let mut next = row.clone();
    next.lease_token = None;
    next.lease_expires_at_ms = None;
    if row.attempts >= policy.max_attempts {
        next.state = DeliveryState::DeadLettered;
        next.settled_at_ms = Some(now_ms);
        next.settlement_reason = Some(reason.to_owned());
    } else {
        next.state = DeliveryState::Queued;
        next.not_before_ms = not_before_ms;
        next.settled_at_ms = None;
        next.settlement_reason = None;
    }
    next
}

/// All deliveries behind the sweep of one subscription's expired leases.
fn sweep_rows(
    rows: &Vec<DeliveryRow>,
    subscription_id: SubscriptionId,
    policy: &RetryPolicy,
    now_ms: i64,
) -> (result: Result<Vec<DeliveryRow>, DeliveryError>)
    ensures
        match result {
            Ok(list) => sweep_possible(text::views(rows@), subscription_id, *policy, now_ms)
                && text::views(list@) == sweep(
                text::views(rows@),
                subscription_id,
                *policy,
                now_ms,
            ),
            Err(error) => !sweep_possible(text::views(rows@), subscription_id, *policy, now_ms)
                && error@ == DeliveryErrorView::InvalidLeaseDuration,
        },
{
    let ghost all = text::views(rows@);
    let ghost goal = sweep(all, subscription_id, *policy, now_ms);
    let mut list: Vec<DeliveryRow> = Vec::new();
    let mut i: usize = 0;
    while i < rows.len()
        invariant
            i <= rows@.len(),
            list@.len() == i,
            all == text::views(rows@),
            goal == sweep(all, subscription_id, *policy, now_ms),
            forall|j: int| 0 <= j < i ==> (#[trigger] list@[j])@ == goal[j],
            forall|j: int|
                0 <= j < i && expired(#[trigger] all[j], subscription_id, now_ms)
                    ==> crate::delivery::not_before(*policy, all[j].attempts, now_ms) is Some,
        decreases rows@.len() - i,
    {
        let row = &rows[i];
        assert(row@ == all[i as int]);
        let is_expired: bool = row.subscription_id == subscription_id && row.state
            == DeliveryState::Leased && (match row.lease_expires_at_ms {
            Some(expires) => expires <= now_ms,
            None => false,
        });
        if is_expired {
            match retry_not_before_ms(policy, row.attempts, now_ms) {
                Ok(time) => {
                    list.push(
                        failed_row(
                            row,
                            policy,
                            now_ms,
                            time,
                            "retry policy exhausted after lease expiry",
                        ),
                    );
                },
                Err(error) => {
                    assert(expired(all[i as int], subscription_id, now_ms));
                    return Err(error);
                },
            }
        } else {
            list.push(row.clone());
        }
        assert(list@[i as int]@ == goal[i as int]);
        i += 1;
    }
    assert(text::views(list@) =~= goal);
    Ok(list)
}

/// How many deliveries of a subscription stand in a state.
pub(crate) fn count_rows(
    rows: &Vec<DeliveryRow>,
    subscription_id: SubscriptionId,
    state: DeliveryState,
) -> (result: u64)
    ensures
        result == count_in(text::views(rows@), subscription_id, state),
{
    let ghost all = text::views(rows@);
    let mut count: u64 = 0;
    let mut i: usize = 0;
    proof {
        reveal(Seq::filter);
        assert(all.take(0).filter(in_state(subscription_id, state)).len() == 0);
    }
    while i < rows.len()
        invariant
            i <= rows@.len(),
            all == text::views(rows@),
            count <= i,
            count == count_in(all.take(i as int), subscription_id, state),
        decreases rows@.len() - i,
    {
        proof {
            let taken = all.take(i as int);
            assert(all.take(i + 1) =~= taken.push(all[i as int]));
            taken.lemma_filter_push(all[i as int], in_state(subscription_id, state));
        }
        if rows[i].subscription_id == subscription_id && rows[i].state == state {
            count += 1;
        }
        i += 1;
    }
    assert(all.take(all.len() as int) =~= all);
    count
}

/// Whether some delivery holds back the one at `at`.
fn is_held_back(rows: &Vec<DeliveryRow>, at: usize) -> (result: bool)
    requires
        at < rows@.len(),
    ensures
        result == exists|k: int|
            0 <= k < rows@.len() && holds_back(
                #[trigger] text::views(rows@)[k],
                text::views(rows@)[at as int],
            ),
{
    let ghost all = text::views(rows@);
    let mut k: usize = 0;
    while k < rows.len()
        invariant
            k <= rows@.len(),
            at < rows@.len(),
            all == text::views(rows@),
            forall|j: int| 0 <= j < k ==> !holds_back(#[trigger] all[j], all[at as int]),
        decreases rows@.len() - k,
    {
        assert(rows@[k as int]@ == all[k as int]);
        assert(rows@[at as int]@ == all[at as int]);
        if rows[k].subscription_id == rows[at].subscription_id && rows[k].record_id
            == rows[at].record_id && rows[k].record_version < rows[at].record_version
            && !rows[k].state.advances() {
            assert(holds_back(all[k as int], all[at as int]));
            return true;
        }
        k += 1;
    }
    false
}

/// Whether `a` comes before `b` in archive order.
fn row_precedes(a: &DeliveryRow, b: &DeliveryRow) -> (result: bool)
    ensures
        result == precedes(a@, b@),
{
    match (a.event_sequence, b.event_sequence) {
        (Some(x), Some(y)) => x < y || (x == y && a.id < b.id),
        (Some(_), None) => true,
        (None, Some(_)) => false,
        (None, None) => a.id < b.id,
    }
}

/// Archive order is transitive.
pub proof fn lemma_precedes_transitive(a: DeliveryView, b: DeliveryView, c: DeliveryView)
    requires
        precedes(a, b),
        precedes(b, c),
    ensures
        precedes(a, c),
{
}

/// Two deliveries with different numbers stand in some order.
pub proof fn lemma_precedes_total(a: DeliveryView, b: DeliveryView)
    requires
        a.id != b.id,
    ensures
        precedes(a, b) || precedes(b, a),
        !(precedes(a, b) && precedes(b, a)),
{
}

/// At most one delivery is next.
pub proof fn lemma_next_unique(
    deliveries: Seq<DeliveryView>,
    subscription_id: SubscriptionId,
    now_ms: i64,
    at: int,
)
    requires
        is_next(deliveries, subscription_id, now_ms, at),
    ensures
        next_candidate(deliveries, subscription_id, now_ms) == Some(at),
{
    let found = choose|k: int| is_next(deliveries, subscription_id, now_ms, k);
    assert(is_next(deliveries, subscription_id, now_ms, found));
    if found != at {
        assert(eligible(deliveries, subscription_id, now_ms, at));
        assert(eligible(deliveries, subscription_id, now_ms, found));
        assert(precedes(deliveries[found], deliveries[at]));
        assert(precedes(deliveries[at], deliveries[found]));
    }
}

/// The first delivery in archive order that may be leased.
fn next_row(
    rows: &Vec<DeliveryRow>,
    subscription_id: SubscriptionId,
    now_ms: i64,
) -> (result: Option<usize>)
    requires
        ledger::deliveries_ascend(text::views(rows@)),
    ensures
        match result {
            Some(at) => at < rows@.len() && is_next(
                text::views(rows@),
                subscription_id,
                now_ms,
                at as int,
            ) && next_candidate(text::views(rows@), subscription_id, now_ms) == Some(at as int),
            None => next_candidate(text::views(rows@), subscription_id, now_ms) is None,
        },
{
    let ghost all = text::views(rows@);
    let mut best: Option<usize> = None;
    let mut i: usize = 0;
    while i < rows.len()
        invariant
            i <= rows@.len(),
            all == text::views(rows@),
            ledger::deliveries_ascend(all),
            match best {
                Some(at) => {
                    &&& at < i
                    &&& eligible(all, subscription_id, now_ms, at as int)
                    &&& forall|k: int|
                        k < i && k != at && #[trigger] eligible(all, subscription_id, now_ms, k)
                            ==> precedes(all[at as int], all[k])
                },
                None => forall|k: int|
                    k < i ==> !(#[trigger] eligible(all, subscription_id, now_ms, k)),
            },
        decreases rows@.len() - i,
    {
        assert(rows@[i as int]@ == all[i as int]);
        if rows[i].subscription_id == subscription_id && rows[i].state == DeliveryState::Queued
            && rows[i].not_before_ms <= now_ms && !is_held_back(rows, i) {
            assert(eligible(all, subscription_id, now_ms, i as int));
            match best {
                Some(at) => {
                    proof {
                        assert(rows@[at as int]@ == all[at as int]);
                        assert(all[at as int].id < all[i as int].id);
                        lemma_precedes_total(all[at as int], all[i as int]);
                    }
                    if row_precedes(&rows[i], &rows[at]) {
                        proof {
                            assert forall|k: int|
                                k < i + 1 && k != i && #[trigger] eligible(
                                    all,
                                    subscription_id,
                                    now_ms,
                                    k,
                                ) implies precedes(all[i as int], all[k]) by {
                                if k != at {
                                    lemma_precedes_transitive(
                                        all[i as int],
                                        all[at as int],
                                        all[k],
                                    );
                                }
                            }
                        }
                        best = Some(i);
                    }
                },
                None => {
                    best = Some(i);
                },
            }
        }
        i += 1;
    }
    proof {
        match best {
            Some(at) => {
                assert(is_next(all, subscription_id, now_ms, at as int));
                lemma_next_unique(all, subscription_id, now_ms, at as int);
            },
            None => {
                assert forall|at: int| !is_next(all, subscription_id, now_ms, at) by {
                    assert(!eligible(all, subscription_id, now_ms, at));
                }
            },
        }
    }
    best
}

/// Replacing deliveries by ones with the same numbers and storable fields keeps a catalog
/// well-formed.
pub proof fn lemma_deliveries_wf(m: LedgerView, deliveries: Seq<DeliveryView>)
    requires
        m.wf(),
        deliveries.len() == m.deliveries.len(),
        forall|i: int|
            0 <= i < deliveries.len() ==> {
                &&& (#[trigger] deliveries[i]).id == m.deliveries[i].id
                &&& deliveries[i].event_sequence == m.deliveries[i].event_sequence
                &&& deliveries[i].record_version == m.deliveries[i].record_version
                &&& deliveries[i].location == m.deliveries[i].location
            },
    ensures
        with_deliveries(m, deliveries).wf(),
{
    let next = with_deliveries(m, deliveries);
    assert forall|i: int| 0 <= i < next.deliveries.len() implies ledger::delivery_ok(
        #[trigger] next.deliveries[i],
    ) by {
        assert(ledger::delivery_ok(m.deliveries[i]));
    }
    assert forall|i: int, j: int| 0 <= i < j < next.deliveries.len() implies (
    #[trigger] next.deliveries[i]).id < (#[trigger] next.deliveries[j]).id by {
        assert(m.deliveries[i].id < m.deliveries[j].id);
    }
}

impl Catalog {
    /// Leases the next delivery of a subscription under this token. Leases that have run out are
    /// requeued or given up first.
    pub fn lease_next_with(
        &mut self,
        subscription_id: SubscriptionId,
        now_ms: i64,
        lease_duration_ms: u64,
        token: LeaseToken,
    ) -> (result: Result<Option<DeliveryLease>, DeliveryError>)
        requires
            old(self).wf(),
        ensures
            final(self).wf(),
            consistency::consistent(old(self)@) ==> consistency::consistent(final(self)@),
            result matches Ok(Some(held)) ==> in_record_order(old(self)@, held@)
                && in_record_order(final(self)@, held@),
            consistency::consistent(old(self)@) ==> one_lease_per_record(final(self)@),
            lease_outcome(
                lease(old(self)@, subscription_id, now_ms, lease_duration_ms, token),
                old(self)@,
                final(self)@,
                result,
            ),
    {
        let ghost expected = lease(self@, subscription_id, now_ms, lease_duration_ms, token);
        assert(expected matches Ok((next, Some(held))) ==> in_record_order(self@, held)
            && in_record_order(next, held)) by {
            laws::law_lease_respects_record_order(
                self@,
                subscription_id,
                now_ms,
                lease_duration_ms,
                token,
            );
        }
        assert(consistency::consistent(self@) ==> {
            &&& one_lease_per_record(self@)
            &&& expected matches Ok((next, made)) ==> consistency::consistent(next)
                && one_lease_per_record(next)
        }) by {
            if consistency::consistent(self@) {
                consistency::law_one_lease_per_record(self@);
                consistency::law_lease_keeps_consistent(
                    self@,
                    subscription_id,
                    now_ms,
                    lease_duration_ms,
                    token,
                );
                if let Ok((next, made)) = expected {
                    consistency::law_one_lease_per_record(next);
                }
            }
        }
        if lease_duration_ms == 0 || lease_duration_ms > MAX_STORED {
            return Err(DeliveryError::InvalidLeaseDuration);
        }
        let expires_at_ms: i64 = match now_ms.checked_add(lease_duration_ms as i64) {
            Some(time) => time,
            None => {
                return Err(DeliveryError::InvalidLeaseDuration);
            },
        };
        let s: usize = match self.find_subscription(subscription_id) {
            Some(s) => s,
            None => {
                return Err(DeliveryError::UnknownSubscription);
            },
        };
        assert(self.subscriptions@[s as int]@ == self@.subscriptions[s as int]);
        if !self.subscriptions[s].enabled {
            return Ok(None);
        }
        let policy = self.subscriptions[s].retry_policy;
        let max_active_leases: u32 = self.subscriptions[s].max_active_leases;
        let ghost m = self@;
        let mut rows = match sweep_rows(&self.deliveries, subscription_id, &policy, now_ms) {
            Ok(rows) => rows,
            Err(error) => {
                return Err(error);
            },
        };
        let ghost queue = text::views(rows@);
        proof {
            lemma_deliveries_wf(m, queue);
        }
        if count_rows(&rows, subscription_id, DeliveryState::Leased) >= max_active_leases as u64 {
            self.deliveries = rows;
            assert(self@ =~= with_deliveries(m, queue));
            return Ok(None);
        }
        let at: usize = match next_row(&rows, subscription_id, now_ms) {
            Some(at) => at,
            None => {
                self.deliveries = rows;
                assert(self@ =~= with_deliveries(m, queue));
                return Ok(None);
            },
        };
        assert(rows@[at as int]@ == queue[at as int]);
        let attempt: u32 = match rows[at].attempts.checked_add(1) {
            Some(attempt) => attempt,
            None => {
                return Err(DeliveryError::Corrupt("delivery attempt overflow".to_owned()));
            },
        };
        let made = DeliveryLease {
            delivery_id: rows[at].id,
            subscription_id,
            event_id: rows[at].event_id,
            event_sequence: rows[at].event_sequence,
            record_id: rows[at].record_id,
            record_version: rows[at].record_version,
            kind: rows[at].kind,
            revision_id: rows[at].revision_id,
            revision: self.revision_bytes(rows[at].revision_id),
            location: copy_location(&rows[at].location),
            is_snapshot: rows[at].is_snapshot,
            attempt,
            token,
            expires_at_ms,
        };
        let mut row = rows[at].clone();
        row.state = DeliveryState::Leased;
        row.attempts = attempt;
        row.lease_token = Some(token);
        row.lease_expires_at_ms = Some(expires_at_ms);
        let ghost before = rows@;
        rows.set(at, row);
        proof {
            text::lemma_views_update(before, at as int, row);
            lemma_deliveries_wf(m, text::views(rows@));
        }
        self.deliveries = rows;
        assert(self@ =~= with_deliveries(
            m,
            queue.update(at as int, leased(queue[at as int], token, expires_at_ms)),
        ));
        Ok(Some(made))
    }

    /// Leases the next delivery of a subscription under a fresh token.
    pub fn lease_next(
        &mut self,
        subscription_id: SubscriptionId,
        now_ms: i64,
        lease_duration_ms: u64,
    ) -> (result: Result<Option<DeliveryLease>, DeliveryError>)
        requires
            old(self).wf(),
        ensures
            final(self).wf(),
            consistency::consistent(old(self)@) ==> consistency::consistent(final(self)@),
            result matches Ok(Some(held)) ==> in_record_order(old(self)@, held@)
                && in_record_order(final(self)@, held@),
            consistency::consistent(old(self)@) ==> one_lease_per_record(final(self)@),
            exists|token: LeaseToken|
                ident::is_random_form(token.id.value) && lease_outcome(
                    #[trigger] lease(
                        old(self)@,
                        subscription_id,
                        now_ms,
                        lease_duration_ms,
                        token,
                    ),
                    old(self)@,
                    final(self)@,
                    result,
                ),
    {
        self.lease_next_with(subscription_id, now_ms, lease_duration_ms, LeaseToken::new())
    }

    /// The row of a lease that is still held.
    fn find_held(&self, held: &DeliveryLease, now_ms: i64) -> (result: Result<
        usize,
        DeliveryError,
    >)
        ensures
            match result {
                Ok(at) => held.delivery_id <= MAX_STORED && at < self.deliveries@.len()
                    && ledger::find_first(self@.deliveries, is_held(held@, now_ms)) == Some(
                    at as int,
                ),
                Err(error) => if held.delivery_id > MAX_STORED {
                    error@ == DeliveryErrorView::Corrupt("delivery ID"@ + " exceeds SQLite range"@)
                } else {
                    &&& ledger::find_first(self@.deliveries, is_held(held@, now_ms)) is None
                    &&& error@ == DeliveryErrorView::StaleLease
                },
            },
    {
        if held.delivery_id > MAX_STORED {
            return Err(
                DeliveryError::Corrupt(text::concat2("delivery ID", " exceeds SQLite range")),
            );
        }
        let mut i: usize = 0;
        while i < self.deliveries.len()
            invariant
                i <= self.deliveries@.len(),
                held.delivery_id <= MAX_STORED,
                forall|j: int|
                    0 <= j < i ==> !(#[trigger] is_held(held@, now_ms)(self@.deliveries[j])),
            decreases self.deliveries@.len() - i,
        {
            let row = &self.deliveries[i];
            assert(row@ == self@.deliveries[i as int]);
            let same_token: bool = match row.lease_token {
                Some(token) => token == held.token,
                None => false,
            };
            let live: bool = match row.lease_expires_at_ms {
                Some(expires) => expires > now_ms,
                None => false,
            };
            if row.id == held.delivery_id && row.subscription_id == held.subscription_id
                && row.state == DeliveryState::Leased && same_token && live {
                proof {
                    assert forall|j: int| 0 <= j < i implies !is_held(held@, now_ms)(
                        #[trigger] self@.deliveries[j],
                    ) by {
                        assert(!is_held(held@, now_ms)(self@.deliveries[j]));
                    }
                    ledger::lemma_found(self@.deliveries, is_held(held@, now_ms), i as int);
                }
                return Ok(i);
            }
            assert(!is_held(held@, now_ms)(self@.deliveries[i as int]));
            i += 1;
        }
        proof {
            assert forall|j: int| 0 <= j < self@.deliveries.len() implies !is_held(held@, now_ms)(
                #[trigger] self@.deliveries[j],
            ) by {
                assert(!is_held(held@, now_ms)(self@.deliveries[j]));
            }
            ledger::lemma_not_found(self@.deliveries, is_held(held@, now_ms));
        }
        Err(DeliveryError::StaleLease)
    }

    /// Replaces one delivery by one that differs only in what settling changes.
    fn replace_delivery(&mut self, at: usize, row: DeliveryRow)
        requires
            old(self).wf(),
            at < old(self).deliveries@.len(),
            row@.id == old(self)@.deliveries[at as int].id,
            row@.event_sequence == old(self)@.deliveries[at as int].event_sequence,
            row@.record_version == old(self)@.deliveries[at as int].record_version,
            row@.location == old(self)@.deliveries[at as int].location,
        ensures
            final(self).wf(),
            final(self)@ == with_deliveries(
                old(self)@,
                old(self)@.deliveries.update(at as int, row@),
            ),
    {
        let ghost before = *self;
        self.deliveries.set(at, row);
        proof {
            text::lemma_views_update(before.deliveries@, at as int, row);
            lemma_deliveries_wf(before@, text::views(self.deliveries@));
            assert(self@ =~= with_deliveries(
                before@,
                before@.deliveries.update(at as int, row@),
            ));
        }
    }

    /// Settles a held lease with an outcome.
    pub fn settle_delivery(
        &mut self,
        lease: &DeliveryLease,
        outcome: DeliveryOutcome,
        settled_at_ms: i64,
        reason: Option<&str>,
    ) -> (result: Result<(), DeliveryError>)
        requires
            old(self).wf(),
        ensures
            final(self).wf(),
            consistency::consistent(old(self)@) ==> consistency::consistent(final(self)@),
            update_outcome(
                settle(old(self)@, lease@, outcome, settled_at_ms, text::view_option(reason)),
                old(self)@,
                final(self)@,
                result,
            ),
    {
        let ghost expected = settle(self@, lease@, outcome, settled_at_ms, text::view_option(reason));
        assert(consistency::consistent(self@) && expected is Ok ==> consistency::consistent(
            expected->Ok_0,
        )) by {
            if consistency::consistent(self@) {
                consistency::law_settle_keeps_consistent(
                    self@,
                    lease@,
                    outcome,
                    settled_at_ms,
                    text::view_option(reason),
                );
            }
        }
        let at: usize = match self.find_held(lease, settled_at_ms) {
            Ok(at) => at,
            Err(error) => {
                return Err(error);
            },
        };
        assert(self.deliveries@[at as int]@ == self@.deliveries[at as int]);
        let mut row = self.deliveries[at].clone();
        row.state = outcome_state(outcome);
        row.lease_token = None;
        row.lease_expires_at_ms = None;
        row.settled_at_ms = Some(settled_at_ms);
        row.settlement_reason =
        match reason {
            Some(reason) => Some(reason.to_owned()),
            None => None,
        };
        self.replace_delivery(at, row);
        Ok(())
    }

    /// Hands a held lease back for another attempt, or gives it up where the policy is exhausted.
    pub fn retry_delivery(&mut self, lease: &DeliveryLease, now_ms: i64) -> (result: Result<
        (),
        DeliveryError,
    >)
        requires
            old(self).wf(),
        ensures
            final(self).wf(),
            consistency::consistent(old(self)@) ==> consistency::consistent(final(self)@),
            update_outcome(
                retry(old(self)@, lease@, now_ms),
                old(self)@,
                final(self)@,
                result,
            ),
    {
        let ghost expected = retry(self@, lease@, now_ms);
        assert(consistency::consistent(self@) && expected is Ok ==> consistency::consistent(
            expected->Ok_0,
        )) by {
            if consistency::consistent(self@) {
                consistency::law_retry_keeps_consistent(self@, lease@, now_ms);
            }
        }
        let s: usize = match self.find_subscription(lease.subscription_id) {
            Some(s) => s,
            None => {
                return Err(DeliveryError::UnknownSubscription);
            },
        };
        assert(self.subscriptions@[s as int]@ == self@.subscriptions[s as int]);
        let policy = self.subscriptions[s].retry_policy;
        let time: i64 = match retry_not_before_ms(&policy, lease.attempt, now_ms) {
            Ok(time) => time,
            Err(error) => {
                return Err(error);
            },
        };
        let at: usize = match self.find_held(lease, now_ms) {
            Ok(at) => at,
            Err(error) => {
                return Err(error);
            },
        };
        assert(self.deliveries@[at as int]@ == self@.deliveries[at as int]);
        let row = failed_row(&self.deliveries[at], &policy, now_ms, time, "retry policy exhausted");
        self.replace_delivery(at, row);
        Ok(())
    }

    /// Conservatively pauses one leased delivery when its required payload is unavailable. Unlike
    /// a dead letter, this remains an unresolved ordering barrier until an operator deliberately
    /// requeues it or changes policy.
    pub fn block_delivery(&mut self, lease: &DeliveryLease, now_ms: i64, reason: &str) -> (result:
        Result<(), DeliveryError>)
        requires
            old(self).wf(),
        ensures
            final(self).wf(),
            consistency::consistent(old(self)@) ==> consistency::consistent(final(self)@),
            update_outcome(
                block(old(self)@, lease@, now_ms, reason@),
                old(self)@,
                final(self)@,
                result,
            ),
    {
        let ghost expected = block(self@, lease@, now_ms, reason@);
        assert(consistency::consistent(self@) && expected is Ok ==> consistency::consistent(
            expected->Ok_0,
        )) by {
            if consistency::consistent(self@) {
                consistency::law_block_keeps_consistent(self@, lease@, now_ms, reason@);
            }
        }
        let at: usize = match self.find_held(lease, now_ms) {
            Ok(at) => at,
            Err(error) => {
                return Err(error);
            },
        };
        assert(self.deliveries@[at as int]@ == self@.deliveries[at as int]);
        let mut row = self.deliveries[at].clone();
        row.state = DeliveryState::Blocked;
        row.lease_token = None;
        row.lease_expires_at_ms = None;
        row.settled_at_ms = None;
        row.settlement_reason = Some(reason.to_owned());
        self.replace_delivery(at, row);
        Ok(())
    }

    /// How many deliveries of a subscription stand in each state.
    pub fn delivery_counts(&self, subscription_id: SubscriptionId) -> (result: Result<
        DeliveryCounts,
        DeliveryError,
    >)
        ensures
            match result {
                Ok(counts) => self@.subscription_at(subscription_id) is Some && counts_are(
                    self@.deliveries,
                    subscription_id,
                    counts,
                ),
                Err(error) => self@.subscription_at(subscription_id) is None && error@
                    == DeliveryErrorView::UnknownSubscription,
            },
    {
        if self.find_subscription(subscription_id).is_none() {
            return Err(DeliveryError::UnknownSubscription);
        }
        Ok(count_all(&self.deliveries, subscription_id))
    }

    /// Pausing is durable and affects only this subscription epoch. Its queued work remains in
    /// the ledger and becomes leaseable again on resume.
    pub fn set_subscription_enabled(&mut self, subscription_id: SubscriptionId, enabled: bool) -> (result:
        Result<(), DeliveryError>)
        requires
            old(self).wf(),
        ensures
            final(self).wf(),
            consistency::consistent(old(self)@) ==> consistency::consistent(final(self)@),
            update_outcome(
                set_enabled(old(self)@, subscription_id, enabled),
                old(self)@,
                final(self)@,
                result,
            ),
    {
        let ghost expected = set_enabled(self@, subscription_id, enabled);
        assert(consistency::consistent(self@) && expected is Ok ==> consistency::consistent(
            expected->Ok_0,
        )) by {
            if consistency::consistent(self@) {
                consistency::law_pause_keeps_consistent(self@, subscription_id, enabled);
            }
        }
        let s: usize = match self.find_subscription(subscription_id) {
            Some(s) => s,
            None => {
                return Err(DeliveryError::UnknownSubscription);
            },
        };
        let ghost before = *self;
        assert(self.subscriptions@[s as int]@ == self@.subscriptions[s as int]);
        assert(ledger::subscription_ok(self@.subscriptions[s as int]));
        let row = SubscriptionRow {
            id: self.subscriptions[s].id,
            consumer_id: self.subscriptions[s].consumer_id.clone(),
            mode: self.subscriptions[s].mode,
            max_active_leases: self.subscriptions[s].max_active_leases,
            accepts_moves: self.subscriptions[s].accepts_moves,
            accepts_tombstones: self.subscriptions[s].accepts_tombstones,
            created_at_ms: self.subscriptions[s].created_at_ms,
            enabled,
            retry_policy: self.subscriptions[s].retry_policy,
        };
        self.subscriptions.set(s, row);
        proof {
            text::lemma_views_update(before.subscriptions@, s as int, row);
            assert forall|i: int| 0 <= i < self@.subscriptions.len() implies ledger::subscription_ok(
                #[trigger] self@.subscriptions[i],
            ) by {
                assert(ledger::subscription_ok(before@.subscriptions[i]));
            }
        }
        Ok(())
    }
}

/// The counts are those of the subscription's deliveries.
pub open spec fn counts_are(
    deliveries: Seq<DeliveryView>,
    subscription_id: SubscriptionId,
    counts: DeliveryCounts,
) -> bool {
    &&& counts.queued == count_in(deliveries, subscription_id, DeliveryState::Queued)
    &&& counts.leased == count_in(deliveries, subscription_id, DeliveryState::Leased)
    &&& counts.blocked == count_in(deliveries, subscription_id, DeliveryState::Blocked)
    &&& counts.acknowledged == count_in(deliveries, subscription_id, DeliveryState::Acknowledged)
    &&& counts.superseded == count_in(deliveries, subscription_id, DeliveryState::Superseded)
    &&& counts.ignored_by_policy == count_in(
        deliveries,
        subscription_id,
        DeliveryState::IgnoredByPolicy,
    )
    &&& counts.dead_lettered == count_in(deliveries, subscription_id, DeliveryState::DeadLettered)
}

/// The number of a subscription's deliveries in each state.
pub(crate) fn count_all(rows: &Vec<DeliveryRow>, subscription_id: SubscriptionId) -> (result:
    DeliveryCounts)
    ensures
        counts_are(text::views(rows@), subscription_id, result),
{
    DeliveryCounts {
        queued: count_rows(rows, subscription_id, DeliveryState::Queued),
        leased: count_rows(rows, subscription_id, DeliveryState::Leased),
        blocked: count_rows(rows, subscription_id, DeliveryState::Blocked),
        acknowledged: count_rows(rows, subscription_id, DeliveryState::Acknowledged),
        superseded: count_rows(rows, subscription_id, DeliveryState::Superseded),
        ignored_by_policy: count_rows(rows, subscription_id, DeliveryState::IgnoredByPolicy),
        dead_lettered: count_rows(rows, subscription_id, DeliveryState::DeadLettered),
    }
}

/// What pausing or resuming a subscription comes to.
pub open spec fn set_enabled(m: LedgerView, subscription_id: SubscriptionId, enabled: bool) -> Result<
    LedgerView,
    DeliveryErrorView,
> {
    match m.subscription_at(subscription_id) {
        Some(s) => Ok(
            LedgerView {
                subscriptions: m.subscriptions.update(
                    s,
                    SubscriptionView { enabled, ..m.subscriptions[s] },
                ),
                ..m
            },
        ),
        None => Err(DeliveryErrorView::UnknownSubscription),
    }
}

} // verus!
