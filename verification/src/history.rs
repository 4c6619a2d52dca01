//! Every state that operations on a catalog can lead to, and what holds in all of them.
use crate::catalog::{RegistrationView, ScanView, SourceFingerprint, TombstoneGrace};
use crate::consistency;
use crate::delivery::{
    ConfigView, DeliveryState, LeaseToken, LeaseView, SubscriptionId, SubscriptionMode,
};
use crate::domain::{
    DeliveryOutcome, EventId, IdentityView, LocationView, RecordState, RevisionView,
};
use crate::laws;
use crate::leases;
use crate::ledger::LedgerView;
use crate::records;
use crate::records::ObservationIds;
use crate::scrub;
use crate::sources;
use crate::subscriptions;
use vstd::prelude::*;

verus! {

/// One operation on a catalog, with the time and the identifiers that it uses.
pub enum Step {
    Observe {
        identity: IdentityView,
        location: LocationView,
        revision: RevisionView,
        at_ms: i64,
        ids: ObservationIds,
    },
    Tombstone { identity: IdentityView, at_ms: i64, event_id: EventId },
    BeginScan { registration: RegistrationView },
    Look { scan: ScanView, location: LocationView, fingerprint: SourceFingerprint },
    AdmitHash { scan: ScanView, location: LocationView },
    MarkSeen { scan: ScanView, registration: RegistrationView, identity: IdentityView },
    ObserveForSource {
        scan: ScanView,
        registration: RegistrationView,
        identity: IdentityView,
        location: LocationView,
        revision: RevisionView,
        at_ms: i64,
        ids: ObservationIds,
    },
    CompleteScan {
        scan: ScanView,
        grace: Option<TombstoneGrace>,
        at_ms: i64,
        event_ids: Seq<EventId>,
    },
    AdvanceScrub {
        source_id: Seq<char>,
        next_after: Option<LocationView>,
        cycle_completed: bool,
        at_ms: i64,
    },
    ObserveScrubbed {
        source_id: Seq<char>,
        identity: IdentityView,
        location: LocationView,
        revision: RevisionView,
        at_ms: i64,
        ids: ObservationIds,
    },
    Subscribe {
        config: ConfigView,
        mode: SubscriptionMode,
        at_ms: i64,
        id: SubscriptionId,
        event_ids: Seq<EventId>,
    },
    Lease { subscription_id: SubscriptionId, now_ms: i64, duration_ms: u64, token: LeaseToken },
    Settle { held: LeaseView, outcome: DeliveryOutcome, at_ms: i64, reason: Option<Seq<char>> },
    Retry { held: LeaseView, now_ms: i64 },
    Block { held: LeaseView, now_ms: i64, why: Seq<char> },
    SetEnabled { subscription_id: SubscriptionId, enabled: bool },
}

/// The catalog behind an operation: what it led to, or the catalog as it was where the operation
/// was refused.
pub open spec fn stepped(m: LedgerView, step: Step) -> LedgerView {
    match step {
        Step::Observe { identity, location, revision, at_ms, ids } => match records::observe(
            m,
            identity,
            location,
            revision,
            at_ms,
            ids,
        ) {
            Ok((next, events)) => next,
            Err(_) => m,
        },
        Step::Tombstone { identity, at_ms, event_id } => match records::tombstone(
            m,
            identity,
            at_ms,
            event_id,
        ) {
            Ok((next, event)) => next,
            Err(_) => m,
        },
        Step::BeginScan { registration } => match sources::begin(m, registration) {
            Ok((next, generation)) => next,
            Err(_) => m,
        },
        Step::Look { scan, location, fingerprint } => sources::look(
            m,
            scan,
            location,
            fingerprint,
        ).0,
        Step::AdmitHash { scan, location } => match sources::admit_hash(m, scan, location) {
            Ok(next) => next,
            Err(_) => m,
        },
        Step::MarkSeen { scan, registration, identity } => match sources::mark_seen(
            m,
            scan,
            registration,
            identity,
        ) {
            Ok(next) => next,
            Err(_) => m,
        },
        Step::ObserveForSource {
            scan,
            registration,
            identity,
            location,
            revision,
            at_ms,
            ids,
        } => sources::observe_for(
            m,
            scan,
            registration,
            identity,
            location,
            revision,
            at_ms,
            ids,
        ).0,
        Step::CompleteScan { scan, grace, at_ms, event_ids } => match sources::complete(
            m,
            scan,
            grace,
            at_ms,
            event_ids,
        ) {
            Ok((next, events)) => next,
            Err(_) => m,
        },
        Step::AdvanceScrub { source_id, next_after, cycle_completed, at_ms } => match scrub::advance(
            m,
            source_id,
            next_after,
            cycle_completed,
            at_ms,
        ) {
            Ok(next) => next,
            Err(_) => m,
        },
        Step::ObserveScrubbed {
            source_id,
            identity,
            location,
            revision,
            at_ms,
            ids,
        } => match scrub::observe_scrubbed(
            m,
            source_id,
            identity,
            location,
            revision,
            at_ms,
            ids,
        ) {
            Ok((next, events)) => next,
            Err(_) => m,
        },
        Step::Subscribe { config, mode, at_ms, id, event_ids } => match subscriptions::subscribe(
            m,
            config,
            mode,
            at_ms,
            id,
            event_ids,
        ) {
            Ok(next) => next,
            Err(_) => m,
        },
        Step::Lease { subscription_id, now_ms, duration_ms, token } => match leases::lease(
            m,
            subscription_id,
            now_ms,
            duration_ms,
            token,
        ) {
            Ok((next, made)) => next,
            Err(_) => m,
        },
        Step::Settle { held, outcome, at_ms, reason } => match leases::settle(
            m,
            held,
            outcome,
            at_ms,
            reason,
        ) {
            Ok(next) => next,
            Err(_) => m,
        },
        Step::Retry { held, now_ms } => match leases::retry(m, held, now_ms) {
            Ok(next) => next,
            Err(_) => m,
        },
        Step::Block { held, now_ms, why } => match leases::block(m, held, now_ms, why) {
            Ok(next) => next,
            Err(_) => m,
        },
        Step::SetEnabled { subscription_id, enabled } => match leases::set_enabled(
            m,
            subscription_id,
            enabled,
        ) {
            Ok(next) => next,
            Err(_) => m,
        },
    }
}

/// A catalog without rows.
pub open spec fn empty() -> LedgerView {
    LedgerView {
        records: Seq::empty(),
        revisions: Seq::empty(),
        events: Seq::empty(),
        sources: Seq::empty(),
        observations: Seq::empty(),
        source_records: Seq::empty(),
        candidates: Seq::empty(),
        scrubs: Seq::empty(),
        subscriptions: Seq::empty(),
        deliveries: Seq::empty(),
    }
}

/// The catalog that these operations lead to, one after the other, from one without rows.
pub open spec fn reached(steps: Seq<Step>) -> LedgerView
    decreases steps.len(),
{
    if steps.len() == 0 {
        empty()
    } else {
        stepped(reached(steps.drop_last()), steps.last())
    }
}

proof fn lemma_step_keeps_consistent(m: LedgerView, step: Step)
    requires
        consistency::consistent(m),
    ensures
        consistency::consistent(stepped(m, step)),
{
    match step {
        Step::Observe { identity, location, revision, at_ms, ids } => {
            consistency::law_observe_keeps_consistent(m, identity, location, revision, at_ms, ids);
        },
        Step::Tombstone { identity, at_ms, event_id } => {
            consistency::law_tombstone_keeps_consistent(m, identity, at_ms, event_id);
        },
        Step::ObserveForSource { scan, registration, identity, location, revision, at_ms, ids } => {
            consistency::law_source_observation_keeps_consistent(
                m,
                scan,
                registration,
                identity,
                location,
                revision,
                at_ms,
                ids,
            );
        },
        Step::CompleteScan { scan, grace, at_ms, event_ids } => {
            consistency::law_complete_keeps_consistent(m, scan, grace, at_ms, event_ids);
        },
        Step::ObserveScrubbed { source_id, identity, location, revision, at_ms, ids } => {
            consistency::law_scrub_observation_keeps_consistent(
                m,
                source_id,
                identity,
                location,
                revision,
                at_ms,
                ids,
            );
        },
        Step::Subscribe { config, mode, at_ms, id, event_ids } => {
            consistency::law_subscribe_keeps_consistent(m, config, mode, at_ms, id, event_ids);
        },
        Step::Lease { subscription_id, now_ms, duration_ms, token } => {
            consistency::law_lease_keeps_consistent(m, subscription_id, now_ms, duration_ms, token);
        },
        Step::Settle { held, outcome, at_ms, reason } => {
            consistency::law_settle_keeps_consistent(m, held, outcome, at_ms, reason);
        },
        Step::Retry { held, now_ms } => {
            consistency::law_retry_keeps_consistent(m, held, now_ms);
        },
        Step::Block { held, now_ms, why } => {
            consistency::law_block_keeps_consistent(m, held, now_ms, why);
        },
        Step::SetEnabled { subscription_id, enabled } => {
            consistency::law_pause_keeps_consistent(m, subscription_id, enabled);
        },
        _ => {
            consistency::lemma_same_core(m, stepped(m, step));
        },
    }
}

/// Every state that operations lead to is consistent.
pub proof fn law_every_state_is_consistent(steps: Seq<Step>)
    ensures
        consistency::consistent(reached(steps)),
    decreases steps.len(),
{
    if steps.len() == 0 {
        consistency::law_empty_is_consistent(empty());
    } else {
        law_every_state_is_consistent(steps.drop_last());
        lemma_step_keeps_consistent(reached(steps.drop_last()), steps.last());
    }
}

/// Whatever happened before, a lease is granted in record order: every earlier version of the
/// record is acknowledged, superseded or ignored by policy, before the lease and behind it. And no
/// subscription ever holds leases on two versions of one record.
pub proof fn law_every_lease_is_in_record_order(
    steps: Seq<Step>,
    subscription_id: SubscriptionId,
    now_ms: i64,
    duration_ms: u64,
    token: LeaseToken,
)
    ensures
        leases::one_lease_per_record(reached(steps)),
        leases::lease(reached(steps), subscription_id, now_ms, duration_ms, token) matches Ok(
            (next, made),
        ) ==> {
            &&& leases::one_lease_per_record(next)
            &&& made matches Some(held) ==> leases::in_record_order(reached(steps), held)
                && leases::in_record_order(next, held)
        },
{
    let m = reached(steps);
    law_every_state_is_consistent(steps);
    consistency::law_one_lease_per_record(m);
    consistency::law_lease_keeps_consistent(m, subscription_id, now_ms, duration_ms, token);
    laws::law_lease_respects_record_order(m, subscription_id, now_ms, duration_ms, token);
    if let Ok((next, made)) = leases::lease(
        m,
        subscription_id,
        now_ms,
        duration_ms,
        token,
    ) {
        consistency::law_one_lease_per_record(next);
    }
}

/// Whatever happened before, events that name the same version of one record are the same event,
/// and a later event of a record names a later version.
pub proof fn law_no_version_is_ever_reused(steps: Seq<Step>, i: int, j: int)
    requires
        0 <= i < j < reached(steps).events.len(),
        reached(steps).events[i].record_id == reached(steps).events[j].record_id,
    ensures
        reached(steps).events[i].record_version < reached(steps).events[j].record_version,
{
    law_every_state_is_consistent(steps);
    consistency::law_versions_ascend(reached(steps), i, j);
}

/// Whatever happened before, every subscription has every event at most once, and never more
/// leases than it may.
pub proof fn law_every_event_is_delivered_once(steps: Seq<Step>, a: int, b: int, s: int)
    requires
        0 <= a < b < reached(steps).deliveries.len(),
        0 <= s < reached(steps).subscriptions.len(),
    ensures
        reached(steps).deliveries[a].subscription_id == reached(steps).deliveries[b].subscription_id
            ==> reached(steps).deliveries[a].event_id != reached(steps).deliveries[b].event_id,
        leases::count_in(
            reached(steps).deliveries,
            reached(steps).subscriptions[s].id,
            DeliveryState::Leased,
        ) <= reached(steps).subscriptions[s].max_active_leases,
{
    let m = reached(steps);
    law_every_state_is_consistent(steps);
    assert(!consistency::same_delivery(m.deliveries[a], m.deliveries[b]));
}

/// Whatever happened before, an observation makes the events that follow from how the record
/// stood, and the same observation again makes none.
pub proof fn law_every_observation_makes_what_follows(
    steps: Seq<Step>,
    identity: IdentityView,
    location: LocationView,
    revision: RevisionView,
    at_ms: i64,
    ids: ObservationIds,
    again_ms: i64,
    again_ids: ObservationIds,
)
    ensures
        records::observe(reached(steps), identity, location, revision, at_ms, ids) matches Ok(
            (next, events),
        ) ==> {
            let before = laws::standing(reached(steps), identity, location);
            let kinds = laws::observation_kinds(before, location, revision);
            &&& events.len() == kinds.len()
            &&& forall|i: int|
                0 <= i < events.len() ==> (#[trigger] events[i]).kind == kinds[i]
                    && events[i].record_version == before.3 + 1 + i
            &&& laws::standing(next, identity, location) == (
                RecordState::Active,
                location,
                Some(revision),
                before.3 + events.len(),
            )
            &&& records::observe(
                next,
                identity,
                location,
                revision,
                again_ms,
                again_ids,
            ) matches Ok((after, more))
            &&& more.len() == 0
            &&& after.events == next.events
        },
{
    law_every_state_is_consistent(steps);
    laws::law_observation_makes_what_follows(
        reached(steps),
        identity,
        location,
        revision,
        at_ms,
        ids,
        again_ms,
        again_ids,
    );
}

} // verus!
