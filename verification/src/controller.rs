//! Bounded delivery runs: one explicit run admits a small amount of work from one subscription.
use vstd::prelude::*;

use crate::consistency;
use crate::delivery;
use crate::delivery::{
    DeliveryError, DeliveryErrorView, DeliveryLease, LeaseToken, LeaseView, SubscriptionId,
};
use crate::domain::{DeliveryOutcome, EventId, RecordId};
use crate::ident;
use crate::leases;
use crate::ledger::{Catalog, LedgerView};
use crate::payload;
use crate::payload::{CurrentExternalRevision, ExternalView, PayloadError, PayloadErrorView};
use crate::paths;
use crate::paths::is_absolute;
use crate::text;
use crate::text::{concat2, debug_text, label_ok, same_text};

verus! {

/// Why a run could not be set up or go on.
#[derive(Debug, Eq, PartialEq)]
pub enum ControllerError {
    Delivery(DeliveryError),
    Payload(PayloadError),
    InvalidConfiguration(String),
    UnknownRootRole { root_role: String },
    MissingDeliveryLocation,
    CounterOverflow,
}

/// A `ControllerError` with its texts as character sequences.
pub enum ControllerErrorView {
    Delivery(DeliveryErrorView),
    Payload(PayloadErrorView),
    InvalidConfiguration(Seq<char>),
    UnknownRootRole { root_role: Seq<char> },
    MissingDeliveryLocation,
    CounterOverflow,
}

impl View for ControllerError {
    type V = ControllerErrorView;

    open spec fn view(&self) -> ControllerErrorView {
        match *self {
            ControllerError::Delivery(error) => ControllerErrorView::Delivery(error@),
            ControllerError::Payload(error) => ControllerErrorView::Payload(error@),
            ControllerError::InvalidConfiguration(m) => {
                ControllerErrorView::InvalidConfiguration(m@)
            },
            ControllerError::UnknownRootRole { root_role } => {
                ControllerErrorView::UnknownRootRole { root_role: root_role@ }
            },
            ControllerError::MissingDeliveryLocation => {
                ControllerErrorView::MissingDeliveryLocation
            },
            ControllerError::CounterOverflow => ControllerErrorView::CounterOverflow,
        }
    }
}

/// The message of a controller error.
pub open spec fn controller_message(error: ControllerErrorView) -> Seq<char> {
    match error {
        ControllerErrorView::Delivery(inner) => delivery::delivery_message(inner),
        ControllerErrorView::Payload(inner) => payload::payload_message(inner),
        ControllerErrorView::InvalidConfiguration(m) => "invalid controller configuration: "@ + m,
        ControllerErrorView::UnknownRootRole { root_role } => {
            "delivery refers to an unconfigured root role "@ + text::debug_form(root_role)
        },
        ControllerErrorView::MissingDeliveryLocation => {
            "byte-bearing delivery has no logical location"@
        },
        ControllerErrorView::CounterOverflow => "controlled-run counter overflowed"@,
    }
}

impl ControllerError {
    /// The message for an operator.
    pub fn message(&self) -> (result: String)
        ensures
            result@ == controller_message(self@),
    {
        match self {
            ControllerError::Delivery(inner) => inner.message(),
            ControllerError::Payload(inner) => inner.message(),
            ControllerError::InvalidConfiguration(m) => {
                concat2("invalid controller configuration: ", m.as_str())
            },
            ControllerError::UnknownRootRole { root_role } => {
                concat2(
                    "delivery refers to an unconfigured root role ",
                    debug_text(root_role.as_str()).as_str(),
                )
            },
            ControllerError::MissingDeliveryLocation => {
                "byte-bearing delivery has no logical location".to_owned()
            },
            ControllerError::CounterOverflow => "controlled-run counter overflowed".to_owned(),
        }
    }
}

/// One root role with its path.
#[derive(Debug)]
struct RootEntry {
    role: String,
    path: String,
}

/// The mirrors below which deliveries are looked up, by root role.
#[derive(Debug)]
pub struct DeliveryRoots {
    entries: Vec<RootEntry>,
}

spec fn entries_view(entries: Seq<RootEntry>) -> Map<Seq<char>, Seq<char>>
    decreases entries.len(),
{
    if entries.len() == 0 {
        Map::empty()
    } else {
        entries_view(entries.drop_last()).insert(entries.last().role@, entries.last().path@)
    }
}

impl View for DeliveryRoots {
    type V = Map<Seq<char>, Seq<char>>;

    closed spec fn view(&self) -> Map<Seq<char>, Seq<char>> {
        entries_view(self.entries@)
    }
}

/// What is wrong with a root role and its path.
pub open spec fn root_refusal(role: Seq<char>, path: Seq<char>) -> Option<ControllerErrorView> {
    if !text::is_label(role) {
        Some(
            ControllerErrorView::InvalidConfiguration(
                "delivery root role must be non-empty, trimmed, and free of NUL bytes"@,
            ),
        )
    } else if !paths::absolute(path) {
        Some(
            ControllerErrorView::InvalidConfiguration("delivery roots must be absolute paths"@),
        )
    } else {
        None
    }
}

/// The refusal of a role that is set already.
pub open spec fn duplicate_role(role: Seq<char>) -> ControllerErrorView {
    ControllerErrorView::InvalidConfiguration(
        "duplicate delivery root role "@ + text::debug_form(role),
    )
}

/// The roots after one more was set, and whether it was refused. A role that is set already is
/// refused, but its path is replaced.
pub open spec fn inserted(
    roots: Map<Seq<char>, Seq<char>>,
    role: Seq<char>,
    path: Seq<char>,
) -> (Map<Seq<char>, Seq<char>>, Result<(), ControllerErrorView>) {
    match root_refusal(role, path) {
        Some(error) => (roots, Err(error)),
        None => (
            roots.insert(role, path),
            if roots.dom().contains(role) {
                Err(duplicate_role(role))
            } else {
                Ok(())
            },
        ),
    }
}

/// The roots of these entries, or the first refusal.
pub open spec fn roots_of(entries: Seq<(Seq<char>, Seq<char>)>) -> Result<
    Map<Seq<char>, Seq<char>>,
    ControllerErrorView,
>
    decreases entries.len(),
{
    if entries.len() == 0 {
        Ok(Map::empty())
    } else {
        match roots_of(entries.drop_last()) {
            Err(error) => Err(error),
            Ok(roots) => {
                let next = inserted(roots, entries.last().0, entries.last().1);
                match next.1 {
                    Ok(_) => Ok(next.0),
                    Err(error) => Err(error),
                }
            },
        }
    }
}

/// The entries with their texts as character sequences.
pub open spec fn pairs(entries: Seq<(String, String)>) -> Seq<(Seq<char>, Seq<char>)> {
    entries.map_values(|entry: (String, String)| (entry.0@, entry.1@))
}

proof fn lemma_roots_refused(entries: Seq<(Seq<char>, Seq<char>)>, count: int)
    requires
        0 <= count <= entries.len(),
        roots_of(entries.take(count)) is Err,
    ensures
        roots_of(entries) == roots_of(entries.take(count)),
    decreases entries.len(),
{
    if count == entries.len() {
        assert(entries.take(count) =~= entries);
    } else {
        assert(entries.drop_last().take(count) =~= entries.take(count));
        lemma_roots_refused(entries.drop_last(), count);
    }
}

impl DeliveryRoots {
    /// The roots of these roles and paths.
    pub fn new(entries: &Vec<(String, String)>) -> (result: Result<DeliveryRoots, ControllerError>)
        ensures
            (match result {
                Ok(roots) => Ok(roots@),
                Err(error) => Err(error@),
            }) == roots_of(pairs(entries@)),
    {
        let ghost all = pairs(entries@);
        let mut roots = DeliveryRoots { entries: Vec::new() };
        let mut i: usize = 0;
        assert(all.take(0) =~= Seq::empty());
        while i < entries.len()
            invariant
                0 <= i <= entries@.len(),
                all == pairs(entries@),
                roots_of(all.take(i as int)) == Ok::<Map<Seq<char>, Seq<char>>, ControllerErrorView>(
                    roots@,
                ),
            decreases entries@.len() - i,
        {
            proof {
                assert(all.take(i + 1).drop_last() =~= all.take(i as int));
                assert(all.take(i + 1).last() == (entries@[i as int].0@, entries@[i as int].1@));
            }
            match roots.insert(entries[i].0.as_str(), entries[i].1.as_str()) {
                Ok(_) => {},
                Err(error) => {
                    proof {
                        lemma_roots_refused(all, i + 1);
                    }
                    return Err(error);
                },
            }
            i += 1;
        }
        assert(all.take(entries@.len() as int) =~= all);
        Ok(roots)
    }

    /// Sets the path of a role.
    pub fn insert(&mut self, root_role: &str, path: &str) -> (result: Result<(), ControllerError>)
        ensures
            ({
                let expected = inserted(old(self)@, root_role@, path@);
                &&& final(self)@ == expected.0
                &&& (match result {
                    Ok(_) => Ok(()),
                    Err(error) => Err(error@),
                }) == expected.1
            }),
    {
        if !label_ok(root_role) {
            return Err(
                ControllerError::InvalidConfiguration(
                    "delivery root role must be non-empty, trimmed, and free of NUL bytes".to_owned(),
                ),
            );
        }
        if !is_absolute(path) {
            return Err(
                ControllerError::InvalidConfiguration(
                    "delivery roots must be absolute paths".to_owned(),
                ),
            );
        }
        let known: bool = self.get(root_role).is_some();
        let entry = RootEntry { role: root_role.to_owned(), path: path.to_owned() };
        assert(self.entries@.push(entry).drop_last() =~= self.entries@);
        self.entries.push(entry);
        if known {
            return Err(
                ControllerError::InvalidConfiguration(
                    concat2("duplicate delivery root role ", debug_text(root_role).as_str()),
                ),
            );
        }
        Ok(())
    }

    /// The path of a role.
    pub fn get(&self, root_role: &str) -> (result: Option<&str>)
        ensures
            text::view_option(result) == (if self@.dom().contains(root_role@) {
                Some(self@[root_role@])
            } else {
                None
            }),
    {
        let ghost all = self.entries@;
        let mut i: usize = self.entries.len();
        assert(all.take(all.len() as int) =~= all);
        while i > 0
            invariant
                i <= all.len(),
                all == self.entries@,
                self@.dom().contains(root_role@) == entries_view(
                    all.take(i as int),
                ).dom().contains(root_role@),
                self@.dom().contains(root_role@) ==> self@[root_role@] == entries_view(
                    all.take(i as int),
                )[root_role@],
            decreases i,
        {
            i -= 1;
            assert(all.take(i + 1).drop_last() =~= all.take(i as int));
            if same_text(self.entries[i].role.as_str(), root_role) {
                return Some(self.entries[i].path.as_str());
            }
        }
        None
    }
}

/// The bounds of one run.
#[derive(Clone, Copy, Debug, Eq, PartialEq, Structural)]
pub struct ControlledRunLimits {
    pub(crate) max_deliveries: u32,
    pub(crate) max_payload_bytes: u64,
    pub(crate) lease_duration_ms: u64,
}

/// The bounds of one run.
pub struct RunLimitsView {
    pub deliveries: u32,
    pub payload_bytes: u64,
    pub lease_duration_ms: u64,
}

impl View for ControlledRunLimits {
    type V = RunLimitsView;

    closed spec fn view(&self) -> RunLimitsView {
        RunLimitsView {
            deliveries: self.max_deliveries,
            payload_bytes: self.max_payload_bytes,
            lease_duration_ms: self.lease_duration_ms,
        }
    }
}

impl ControlledRunLimits {
    /// At least one delivery and a positive lease duration.
    pub fn new(max_deliveries: u32, max_payload_bytes: u64, lease_duration_ms: u64) -> (result: Result<
        ControlledRunLimits,
        ControllerError,
    >)
        ensures
            match result {
                Ok(limits) => {
                    &&& max_deliveries != 0 && lease_duration_ms != 0
                    &&& limits@ == (RunLimitsView {
                        deliveries: max_deliveries,
                        payload_bytes: max_payload_bytes,
                        lease_duration_ms,
                    })
                },
                Err(error) => {
                    &&& max_deliveries == 0 || lease_duration_ms == 0
                    &&& error@ == ControllerErrorView::InvalidConfiguration(
                        "controlled runs require at least one delivery and a positive lease duration"@,
                    )
                },
            },
    {
        if max_deliveries == 0 || lease_duration_ms == 0 {
            return Err(
                ControllerError::InvalidConfiguration(
                    "controlled runs require at least one delivery and a positive lease duration".to_owned(),
                ),
            );
        }
        Ok(ControlledRunLimits { max_deliveries, max_payload_bytes, lease_duration_ms })
    }
}

/// A consumer that reads files. The payload is absent for events without bytes, such as a
/// deletion. Success means that the event's identity and provenance are durably recorded.
pub trait PathConsumer {
    fn apply(&mut self, delivery: &DeliveryLease, payload: Option<&str>) -> Result<
        DeliveryOutcome,
        String,
    >;
}

/// What became of one delivery.
#[derive(Debug, Eq, PartialEq)]
pub enum ControlledDeliveryOutcome {
    Settled(DeliveryOutcome),
    Retried { reason: String },
    DeferredByByteBudget,
}

/// What became of one delivery.
pub enum OutcomeView {
    Settled(DeliveryOutcome),
    Retried { reason: Seq<char> },
    DeferredByByteBudget,
}

impl View for ControlledDeliveryOutcome {
    type V = OutcomeView;

    open spec fn view(&self) -> OutcomeView {
        match *self {
            ControlledDeliveryOutcome::Settled(outcome) => OutcomeView::Settled(outcome),
            ControlledDeliveryOutcome::Retried { reason } => {
                OutcomeView::Retried { reason: reason@ }
            },
            ControlledDeliveryOutcome::DeferredByByteBudget => OutcomeView::DeferredByByteBudget,
        }
    }
}

/// One delivery that a run took up.
#[derive(Debug, Eq, PartialEq)]
pub struct ControlledDeliveryAttempt {
    pub event_id: EventId,
    pub record_id: RecordId,
    pub record_version: u64,
    pub outcome: ControlledDeliveryOutcome,
}

/// One delivery that a run took up.
#[verifier::ext_equal]
pub struct AttemptView {
    pub event_id: EventId,
    pub record_id: RecordId,
    pub record_version: u64,
    pub outcome: OutcomeView,
}

impl View for ControlledDeliveryAttempt {
    type V = AttemptView;

    open spec fn view(&self) -> AttemptView {
        AttemptView {
            event_id: self.event_id,
            record_id: self.record_id,
            record_version: self.record_version,
            outcome: self.outcome@,
        }
    }
}

/// What a run did.
#[derive(Debug, Eq, PartialEq)]
pub struct ControlledRunReport {
    pub attempts: Vec<ControlledDeliveryAttempt>,
    pub payload_bytes_admitted: u64,
}

/// A delivery that a run holds, and the bytes that it has admitted once this one is settled.
#[verifier::ext_equal]
pub struct HeldView {
    pub lease: LeaseView,
    pub admitted: u64,
}

/// A run in progress.
#[verifier::ext_equal]
pub struct ControlledView {
    pub subscription_id: SubscriptionId,
    pub limits: RunLimitsView,
    pub now_ms: i64,
    pub attempts: Seq<AttemptView>,
    /// The lease behind each attempt, in the same order.
    pub leases: Seq<LeaseView>,
    pub admitted: u64,
    /// How many deliveries were leased.
    pub taken: u32,
    pub stopped: bool,
    pub held: Option<HeldView>,
}

/// What a run wants next.
pub enum RunStepView {
    /// Nothing more.
    Finished,
    /// The held delivery is to be applied, with the bytes of this revision where it has any.
    Apply { external: Option<ExternalView> },
}

/// What became of a delivery.
pub open spec fn attempt_of(lease: LeaseView, outcome: OutcomeView) -> AttemptView {
    AttemptView {
        event_id: lease.event_id,
        record_id: lease.record_id,
        record_version: lease.record_version,
        outcome,
    }
}

/// How many bytes a delivery carries.
pub open spec fn bytes_of(lease: LeaseView) -> u64 {
    match lease.revision {
        Some(revision) => revision.byte_length,
        None => 0,
    }
}

/// A leased delivery goes back to its queue, and the run fails with this error.
pub open spec fn given_back(
    m: LedgerView,
    run: ControlledView,
    lease: LeaseView,
    error: ControllerErrorView,
) -> (LedgerView, ControlledView, Result<RunStepView, ControllerErrorView>) {
    match leases::retry(m, lease, run.now_ms) {
        Err(refusal) => (m, run, Err(ControllerErrorView::Delivery(refusal))),
        Ok(next) => (next, run, Err(error)),
    }
}

/// What a run does with a delivery that it leased.
pub open spec fn offered(
    m: LedgerView,
    run: ControlledView,
    roots: Map<Seq<char>, Seq<char>>,
    lease: LeaseView,
) -> (LedgerView, ControlledView, Result<RunStepView, ControllerErrorView>) {
    let total = run.admitted + bytes_of(lease);
    if total > u64::MAX {
        (m, run, Err(ControllerErrorView::CounterOverflow))
    } else if total > run.limits.payload_bytes {
        match leases::retry(m, lease, run.now_ms) {
            Err(refusal) => (m, run, Err(ControllerErrorView::Delivery(refusal))),
            Ok(next) => (
                next,
                ControlledView {
                    attempts: run.attempts.push(
                        attempt_of(lease, OutcomeView::DeferredByByteBudget),
                    ),
                    leases: run.leases.push(lease),
                    stopped: true,
                    ..run
                },
                Ok(RunStepView::Finished),
            ),
        }
    } else {
        let holding = ControlledView {
            held: Some(HeldView { lease, admitted: total as u64 }),
            ..run
        };
        match lease.revision {
            None => (m, holding, Ok(RunStepView::Apply { external: None })),
            Some(revision) => match lease.location {
                None => given_back(m, run, lease, ControllerErrorView::MissingDeliveryLocation),
                Some(location) => if !roots.dom().contains(location.root_role) {
                    given_back(
                        m,
                        run,
                        lease,
                        ControllerErrorView::UnknownRootRole { root_role: location.root_role },
                    )
                } else {
                    let root = roots[location.root_role];
                    match payload::external_refusal(root, location.source_relative_path) {
                        Some(error) => (m, run, Err(ControllerErrorView::Payload(error))),
                        None => (
                            m,
                            holding,
                            Ok(
                                RunStepView::Apply {
                                    external: Some(
                                        ExternalView {
                                            root,
                                            relative_path: location.source_relative_path,
                                            expected: revision,
                                        },
                                    ),
                                },
                            ),
                        ),
                    }
                },
            },
        }
    }
}

/// What a run does next under this token.
pub open spec fn advanced(
    m: LedgerView,
    run: ControlledView,
    roots: Map<Seq<char>, Seq<char>>,
    token: LeaseToken,
) -> (LedgerView, ControlledView, Result<RunStepView, ControllerErrorView>) {
    if run.stopped || run.taken >= run.limits.deliveries {
        (m, run, Ok(RunStepView::Finished))
    } else {
        match leases::lease(
            m,
            run.subscription_id,
            run.now_ms,
            run.limits.lease_duration_ms,
            token,
        ) {
            Err(error) => (m, run, Err(ControllerErrorView::Delivery(error))),
            Ok((next, None)) => (
                next,
                ControlledView { stopped: true, ..run },
                Ok(RunStepView::Finished),
            ),
            Ok((next, Some(lease))) => offered(
                next,
                ControlledView { taken: (run.taken + 1) as u32, ..run },
                roots,
                lease,
            ),
        }
    }
}

/// What a run does with a consumer's answer to the held delivery. After a failure it stops, so
/// that it cannot spin on work that is at once due again.
pub open spec fn answered(
    m: LedgerView,
    run: ControlledView,
    answer: Result<DeliveryOutcome, Seq<char>>,
) -> (LedgerView, ControlledView, Result<(), ControllerErrorView>) {
    match run.held {
        None => (m, run, Ok(())),
        Some(held) => match answer {
            Ok(outcome) => match leases::settle(m, held.lease, outcome, run.now_ms, None) {
                Err(error) => (m, run, Err(ControllerErrorView::Delivery(error))),
                Ok(next) => (
                    next,
                    ControlledView {
                        admitted: held.admitted,
                        attempts: run.attempts.push(
                            attempt_of(held.lease, OutcomeView::Settled(outcome)),
                        ),
                        leases: run.leases.push(held.lease),
                        held: None,
                        ..run
                    },
                    Ok(()),
                ),
            },
            Err(reason) => match leases::retry(m, held.lease, run.now_ms) {
                Err(error) => (m, run, Err(ControllerErrorView::Delivery(error))),
                Ok(next) => (
                    next,
                    ControlledView {
                        attempts: run.attempts.push(
                            attempt_of(held.lease, OutcomeView::Retried { reason }),
                        ),
                        leases: run.leases.push(held.lease),
                        stopped: true,
                        held: None,
                        ..run
                    },
                    Ok(()),
                ),
            },
        },
    }
}

/// What a run wants next.
#[derive(Debug)]
pub enum RunStep {
    Finished,
    Apply { external: Option<CurrentExternalRevision> },
}

impl View for RunStep {
    type V = RunStepView;

    open spec fn view(&self) -> RunStepView {
        match *self {
            RunStep::Finished => RunStepView::Finished,
            RunStep::Apply { external } => RunStepView::Apply {
                external: text::view_option(external),
            },
        }
    }
}

/// A delivery that a run holds.
#[derive(Debug)]
struct HeldDelivery {
    lease: DeliveryLease,
    admitted: u64,
}

impl View for HeldDelivery {
    type V = HeldView;

    closed spec fn view(&self) -> HeldView {
        HeldView { lease: self.lease@, admitted: self.admitted }
    }
}

/// A run in progress.
pub struct ControlledRun {
    subscription_id: SubscriptionId,
    limits: ControlledRunLimits,
    now_ms: i64,
    report: ControlledRunReport,
    leases: Ghost<Seq<LeaseView>>,
    taken: u32,
    stopped: bool,
    held: Option<HeldDelivery>,
}

impl View for ControlledRun {
    type V = ControlledView;

    closed spec fn view(&self) -> ControlledView {
        ControlledView {
            subscription_id: self.subscription_id,
            limits: self.limits@,
            now_ms: self.now_ms,
            attempts: text::views(self.report.attempts@),
            leases: self.leases@,
            admitted: self.report.payload_bytes_admitted,
            taken: self.taken,
            stopped: self.stopped,
            held: text::view_option(self.held),
        }
    }
}

/// A run before its first delivery.
pub open spec fn fresh(subscription_id: SubscriptionId, limits: RunLimitsView, now_ms: i64) -> ControlledView {
    ControlledView {
        subscription_id,
        limits,
        now_ms,
        attempts: Seq::empty(),
        leases: Seq::empty(),
        admitted: 0,
        taken: 0,
        stopped: false,
        held: None,
    }
}

/// Whether a run's step came to what it should.
pub open spec fn run_outcome(
    expected: (LedgerView, ControlledView, Result<RunStepView, ControllerErrorView>),
    catalog: LedgerView,
    run: ControlledView,
    result: Result<RunStep, ControllerError>,
) -> bool {
    &&& catalog == expected.0
    &&& run == expected.1
    &&& (match result {
        Ok(step) => Ok(step@),
        Err(error) => Err(error@),
    }) == expected.2
}

impl ControlledRun {
    /// A run over one subscription.
    pub fn new(subscription_id: SubscriptionId, limits: ControlledRunLimits, now_ms: i64) -> (result:
        ControlledRun)
        ensures
            result@ == fresh(subscription_id, limits@, now_ms),
    {
        let run = ControlledRun {
            subscription_id,
            limits,
            now_ms,
            report: ControlledRunReport { attempts: Vec::new(), payload_bytes_admitted: 0 },
            leases: Ghost(Seq::empty()),
            taken: 0,
            stopped: false,
            held: None,
        };
        assert(run@ =~= fresh(subscription_id, limits@, now_ms));
        run
    }

    fn note(&mut self, lease: &DeliveryLease, outcome: ControlledDeliveryOutcome)
        ensures
            final(self)@ == (ControlledView {
                attempts: old(self)@.attempts.push(attempt_of(lease@, outcome@)),
                leases: old(self)@.leases.push(lease@),
                ..old(self)@
            }),
    {
        let attempt = ControlledDeliveryAttempt {
            event_id: lease.event_id,
            record_id: lease.record_id,
            record_version: lease.record_version,
            outcome,
        };
        proof {
            text::lemma_views_push(self.report.attempts@, attempt);
        }
        let ghost before = self@;
        self.report.attempts.push(attempt);
        self.leases = Ghost(self.leases@.push(lease@));
        assert(self@ =~= (ControlledView {
            attempts: before.attempts.push(attempt@),
            leases: before.leases.push(lease@),
            ..before
        }));
    }

    fn give_back(&self, catalog: &mut Catalog, lease: &DeliveryLease, error: ControllerError) -> (result:
        Result<RunStep, ControllerError>)
        requires
            old(catalog).wf(),
        ensures
            final(catalog).wf(),
            consistency::consistent(old(catalog)@) ==> consistency::consistent(final(catalog)@),
            run_outcome(
                given_back(old(catalog)@, self@, lease@, error@),
                final(catalog)@,
                self@,
                result,
            ),
    {
        match catalog.retry_delivery(lease, self.now_ms) {
            Ok(_) => Err(error),
            Err(refusal) => Err(ControllerError::Delivery(refusal)),
        }
    }

    fn offer(&mut self, catalog: &mut Catalog, roots: &DeliveryRoots, lease: DeliveryLease) -> (result:
        Result<RunStep, ControllerError>)
        requires
            old(catalog).wf(),
            old(self)@.held is None,
        ensures
            final(catalog).wf(),
            consistency::consistent(old(catalog)@) ==> consistency::consistent(final(catalog)@),
            run_outcome(
                offered(old(catalog)@, old(self)@, roots@, lease@),
                final(catalog)@,
                final(self)@,
                result,
            ),
    {
        let ghost start = self@;
        let payload_bytes: u64 = match &lease.revision {
            Some(revision) => revision.byte_length(),
            None => 0,
        };
        let total: u64 = match self.report.payload_bytes_admitted.checked_add(payload_bytes) {
            Some(total) => total,
            None => {
                return Err(ControllerError::CounterOverflow);
            },
        };
        if total > self.limits.max_payload_bytes {
            match catalog.retry_delivery(&lease, self.now_ms) {
                Ok(_) => {},
                Err(error) => {
                    return Err(ControllerError::Delivery(error));
                },
            }
            self.note(&lease, ControlledDeliveryOutcome::DeferredByByteBudget);
            self.stopped = true;
            assert(self@ =~= offered(old(catalog)@, start, roots@, lease@).1);
            return Ok(RunStep::Finished);
        }
        let external: Option<CurrentExternalRevision> = match &lease.revision {
            None => None,
            Some(revision) => {
                let location = match &lease.location {
                    Some(location) => location,
                    None => {
                        return self.give_back(
                            catalog,
                            &lease,
                            ControllerError::MissingDeliveryLocation,
                        );
                    },
                };
                let root = match roots.get(location.root_role()) {
                    Some(root) => root,
                    None => {
                        let error = ControllerError::UnknownRootRole {
                            root_role: location.root_role().to_owned(),
                        };
                        return self.give_back(catalog, &lease, error);
                    },
                };
                match CurrentExternalRevision::new(
                    root,
                    location.source_relative_path(),
                    *revision,
                ) {
                    Ok(external) => Some(external),
                    Err(error) => {
                        return Err(ControllerError::Payload(error));
                    },
                }
            },
        };
        let ghost kept = lease@;
        self.held = Some(HeldDelivery { lease, admitted: total });
        assert(self@ =~= (ControlledView {
            held: Some(HeldView { lease: kept, admitted: total }),
            ..start
        }));
        Ok(RunStep::Apply { external })
    }

    /// Takes up the next delivery under this token.
    pub fn advance_with(&mut self, catalog: &mut Catalog, roots: &DeliveryRoots, token: LeaseToken) -> (result:
        Result<RunStep, ControllerError>)
        requires
            old(catalog).wf(),
            old(self)@.held is None,
        ensures
            final(catalog).wf(),
            consistency::consistent(old(catalog)@) ==> consistency::consistent(final(catalog)@),
            run_outcome(
                advanced(old(catalog)@, old(self)@, roots@, token),
                final(catalog)@,
                final(self)@,
                result,
            ),
    {
        let ghost start = self@;
        if self.stopped || self.taken >= self.limits.max_deliveries {
            return Ok(RunStep::Finished);
        }
        match catalog.lease_next_with(
            self.subscription_id,
            self.now_ms,
            self.limits.lease_duration_ms,
            token,
        ) {
            Err(error) => Err(ControllerError::Delivery(error)),
            Ok(None) => {
                self.stopped = true;
                assert(self@ =~= (ControlledView { stopped: true, ..start }));
                Ok(RunStep::Finished)
            },
            Ok(Some(lease)) => {
                self.taken = self.taken + 1;
                assert(self@ =~= (ControlledView { taken: (start.taken + 1) as u32, ..start }));
                self.offer(catalog, roots, lease)
            },
        }
    }

    /// Takes up the next delivery under a fresh token.
    pub fn advance(&mut self, catalog: &mut Catalog, roots: &DeliveryRoots) -> (result: Result<
        RunStep,
        ControllerError,
    >)
        requires
            old(catalog).wf(),
            old(self)@.held is None,
        ensures
            final(catalog).wf(),
            consistency::consistent(old(catalog)@) ==> consistency::consistent(final(catalog)@),
            exists|token: LeaseToken|
                ident::is_random_form(token.id.value) && run_outcome(
                    #[trigger] advanced(old(catalog)@, old(self)@, roots@, token),
                    final(catalog)@,
                    final(self)@,
                    result,
                ),
    {
        self.advance_with(catalog, roots, LeaseToken::new())
    }

    /// The delivery that is to be applied.
    pub fn held(&self) -> (result: Option<&DeliveryLease>)
        ensures
            match (result, self@.held) {
                (Some(lease), Some(held)) => lease@ == held.lease,
                (None, None) => true,
                _ => false,
            },
    {
        match &self.held {
            Some(held) => Some(&held.lease),
            None => None,
        }
    }

    /// Takes in the consumer's answer to the held delivery.
    pub fn answer(&mut self, catalog: &mut Catalog, answer: Result<DeliveryOutcome, String>) -> (result:
        Result<(), ControllerError>)
        requires
            old(catalog).wf(),
        ensures
            final(catalog).wf(),
            consistency::consistent(old(catalog)@) ==> consistency::consistent(final(catalog)@),
            ({
                let expected = answered(
                    old(catalog)@,
                    old(self)@,
                    match answer {
                        Ok(outcome) => Ok(outcome),
                        Err(reason) => Err(reason@),
                    },
                );
                &&& final(catalog)@ == expected.0
                &&& final(self)@ == expected.1
                &&& (match result {
                    Ok(_) => Ok(()),
                    Err(error) => Err(error@),
                }) == expected.2
            }),
    {
        let ghost start = self@;
        let held = match self.held.take() {
            Some(held) => held,
            None => {
                assert(self@ =~= start);
                return Ok(());
            },
        };
        assert(start.held == Some(held@));
        match answer {
            Ok(outcome) => match catalog.settle_delivery(&held.lease, outcome, self.now_ms, None) {
                Ok(_) => {
                    self.report.payload_bytes_admitted = held.admitted;
                    self.note(&held.lease, ControlledDeliveryOutcome::Settled(outcome));
                    assert(self@ =~= (ControlledView {
                        admitted: held@.admitted,
                        attempts: start.attempts.push(
                            attempt_of(held@.lease, OutcomeView::Settled(outcome)),
                        ),
                        leases: start.leases.push(held@.lease),
                        held: None,
                        ..start
                    }));
                    Ok(())
                },
                Err(error) => {
                    self.held = Some(held);
                    assert(self@ =~= start);
                    Err(ControllerError::Delivery(error))
                },
            },
            Err(reason) => match catalog.retry_delivery(&held.lease, self.now_ms) {
                Ok(_) => {
                    let ghost why = reason@;
                    self.note(&held.lease, ControlledDeliveryOutcome::Retried { reason });
                    self.stopped = true;
                    assert(self@ =~= (ControlledView {
                        attempts: start.attempts.push(
                            attempt_of(held@.lease, OutcomeView::Retried { reason: why }),
                        ),
                        leases: start.leases.push(held@.lease),
                        stopped: true,
                        held: None,
                        ..start
                    }));
                    Ok(())
                },
                Err(error) => {
                    self.held = Some(held);
                    assert(self@ =~= start);
                    Err(ControllerError::Delivery(error))
                },
            },
        }
    }

    /// Takes in that the bytes of the held delivery could not be had.
    pub fn materialization_failed(&mut self, catalog: &mut Catalog, error: &PayloadError) -> (result:
        Result<(), ControllerError>)
        requires
            old(catalog).wf(),
        ensures
            final(catalog).wf(),
            consistency::consistent(old(catalog)@) ==> consistency::consistent(final(catalog)@),
            ({
                let expected = answered(
                    old(catalog)@,
                    old(self)@,
                    Err(
                        "verified materialization failed: "@ + payload::payload_message(error@),
                    ),
                );
                &&& final(catalog)@ == expected.0
                &&& final(self)@ == expected.1
                &&& (match result {
                    Ok(_) => Ok(()),
                    Err(error) => Err(error@),
                }) == expected.2
            }),
    {
        let reason = concat2("verified materialization failed: ", error.message().as_str());
        self.answer(catalog, Err(reason))
    }

    /// What the run did.
    pub fn finish(self) -> (result: ControlledRunReport)
        ensures
            text::views(result.attempts@) == self@.attempts,
            result.payload_bytes_admitted == self@.admitted,
    {
        self.report
    }
}

/// The bytes of the settled attempts among these, each with the lease behind it.
pub open spec fn settled_bytes(attempts: Seq<AttemptView>, leases: Seq<LeaseView>) -> nat
    decreases attempts.len(),
{
    if attempts.len() == 0 {
        0
    } else {
        settled_bytes(attempts.drop_last(), leases.drop_last()) + (if attempts.last().outcome
            is Settled {
            bytes_of(leases.last()) as nat
        } else {
            0
        })
    }
}

/// Every attempt is of the lease behind it.
pub open spec fn attempts_of_leases(run: ControlledView) -> bool {
    &&& run.leases.len() == run.attempts.len()
    &&& forall|i: int|
        0 <= i < run.attempts.len() ==> (#[trigger] run.attempts[i]) == attempt_of(
            run.leases[i],
            run.attempts[i].outcome,
        )
}

/// Every attempt but the last is settled, and so is the last unless the run stopped at it.
pub open spec fn settled_but_last(run: ControlledView) -> bool {
    forall|i: int|
        0 <= i < run.attempts.len() && (i < run.attempts.len() - 1 || !run.stopped) ==> (
        #[trigger] run.attempts[i]).outcome is Settled
}

/// What holds of every run: it takes no more deliveries than it may, reports no more than it took,
/// and admits no more bytes than it may. What it admitted are the bytes of the settled attempts,
/// and every attempt but the last is settled.
pub open spec fn within_limits(run: ControlledView) -> bool {
    &&& run.taken <= run.limits.deliveries
    &&& run.attempts.len() <= run.taken
    &&& run.held is Some ==> run.attempts.len() < run.taken && !run.stopped
    &&& run.admitted <= run.limits.payload_bytes
    &&& run.held matches Some(held) ==> {
        &&& held.admitted <= run.limits.payload_bytes
        &&& held.admitted == run.admitted + bytes_of(held.lease)
    }
    &&& attempts_of_leases(run)
    &&& run.admitted == settled_bytes(run.attempts, run.leases)
    &&& settled_but_last(run)
}

proof fn lemma_settled_bytes_push(
    attempts: Seq<AttemptView>,
    leases: Seq<LeaseView>,
    attempt: AttemptView,
    lease: LeaseView,
)
    ensures
        settled_bytes(attempts.push(attempt), leases.push(lease)) == settled_bytes(
            attempts,
            leases,
        ) + (if attempt.outcome is Settled {
            bytes_of(lease) as nat
        } else {
            0
        }),
{
    assert(attempts.push(attempt).drop_last() =~= attempts);
    assert(leases.push(lease).drop_last() =~= leases);
}

proof fn lemma_noted(run: ControlledView, next: ControlledView, lease: LeaseView, outcome: OutcomeView)
    requires
        within_limits(run),
        !run.stopped,
        next.attempts == run.attempts.push(attempt_of(lease, outcome)),
        next.leases == run.leases.push(lease),
        next.stopped || outcome is Settled,
        next.admitted == run.admitted + (if outcome is Settled {
            bytes_of(lease) as nat
        } else {
            0
        }),
    ensures
        attempts_of_leases(next),
        next.admitted == settled_bytes(next.attempts, next.leases),
        settled_but_last(next),
{
    lemma_settled_bytes_push(run.attempts, run.leases, attempt_of(lease, outcome), lease);
    assert forall|i: int| 0 <= i < run.attempts.len() implies (#[trigger] next.attempts[i])
        == attempt_of(next.leases[i], next.attempts[i].outcome) && next.attempts[i].outcome
        is Settled by {
        assert(next.attempts[i] == run.attempts[i]);
    }
}

/// A new run is within its limits, and every step keeps it there.
pub proof fn law_run_stays_within_limits(
    m: LedgerView,
    run: ControlledView,
    roots: Map<Seq<char>, Seq<char>>,
    token: LeaseToken,
    answer: Result<DeliveryOutcome, Seq<char>>,
    subscription_id: SubscriptionId,
    limits: RunLimitsView,
    now_ms: i64,
)
    requires
        within_limits(run),
    ensures
        within_limits(fresh(subscription_id, limits, now_ms)),
        run.held is None ==> within_limits(advanced(m, run, roots, token).1),
        within_limits(answered(m, run, answer).1),
{
    let advance = advanced(m, run, roots, token).1;
    if advance.attempts.len() > run.attempts.len() {
        let lease = advance.leases.last();
        lemma_noted(run, advance, lease, OutcomeView::DeferredByByteBudget);
    } else {
        assert(settled_but_last(advance)) by {
            assert forall|i: int|
                0 <= i < advance.attempts.len() && (i < advance.attempts.len() - 1
                    || !advance.stopped) implies (#[trigger] advance.attempts[i]).outcome
                is Settled by {
                assert(run.attempts[i].outcome is Settled);
            }
        }
    }
    if let Some(held) = run.held {
        let after = answered(m, run, answer).1;
        if after.attempts.len() > run.attempts.len() {
            lemma_noted(run, after, held.lease, after.attempts.last().outcome);
        }
    }
}

/// A run ends after its first failure: nothing is leased any more.
pub proof fn law_run_stops_after_a_failure(
    m: LedgerView,
    run: ControlledView,
    roots: Map<Seq<char>, Seq<char>>,
    token: LeaseToken,
    reason: Seq<char>,
)
    requires
        run.held is Some,
        answered(m, run, Err(reason)).2 is Ok,
    ensures
        ({
            let after = answered(m, run, Err(reason));
            advanced(after.0, after.1, roots, token) == (
                after.0,
                after.1,
                Ok::<RunStepView, ControllerErrorView>(RunStepView::Finished),
            )
        }),
{
}

/// A delivery over the byte budget goes back to its queue without being applied.
pub proof fn law_byte_budget_defers_without_applying(
    m: LedgerView,
    run: ControlledView,
    roots: Map<Seq<char>, Seq<char>>,
    lease: LeaseView,
)
    requires
        run.held is None,
        run.admitted + bytes_of(lease) > run.limits.payload_bytes,
    ensures
        offered(m, run, roots, lease).1.held is None,
        offered(m, run, roots, lease).2 is Ok ==> offered(m, run, roots, lease).2->Ok_0 is Finished,
        offered(m, run, roots, lease).1.admitted == run.admitted,
{
}

} // verus!
