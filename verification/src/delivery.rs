//! Subscriptions, delivery states, leases and the retry policy.
use crate::catalog::{CatalogError, CatalogErrorView};
use crate::domain::{
    CanonicalRevision, DeliveryOutcome, EventId, EventKind, LocationView, LogicalLocation, RecordId,
    RevisionId, RevisionView,
};
use crate::ident::Uuid;
use crate::text;
use crate::text::{concat2, debug_text, label_ok, same_text};
use vstd::arithmetic::power2::*;
use vstd::prelude::*;

verus! {

/// The identity of one subscription epoch.
#[derive(Clone, Copy, Debug, Eq, Hash, PartialEq, Structural)]
pub struct SubscriptionId {
    pub id: Uuid,
}

impl SubscriptionId {
    /// A fresh random identity.
    pub fn new() -> (result: SubscriptionId)
        ensures
            crate::ident::is_random_form(result.id.value),
    {
        SubscriptionId { id: Uuid::new_v4() }
    }

    pub fn from_uuid(value: Uuid) -> (result: SubscriptionId)
        ensures
            result.id == value,
    {
        SubscriptionId { id: value }
    }

    pub fn as_uuid(self) -> (result: Uuid)
        ensures
            result == self.id,
    {
        self.id
    }

    /// The hyphenated text of the identity.
    pub fn to_text(self) -> (result: String)
        ensures
            result@ == crate::ident::uuid_text(self.id),
    {
        self.id.to_text()
    }
}

/// The proof of one lease, known to its holder alone.
#[derive(Clone, Copy, Debug, Eq, Hash, PartialEq, Structural)]
pub struct LeaseToken {
    pub id: Uuid,
}

impl LeaseToken {
    /// A fresh random token.
    pub fn new() -> (result: LeaseToken)
        ensures
            crate::ident::is_random_form(result.id.value),
    {
        LeaseToken { id: Uuid::new_v4() }
    }

    pub fn from_uuid(value: Uuid) -> (result: LeaseToken)
        ensures
            result.id == value,
    {
        LeaseToken { id: value }
    }

    pub fn as_uuid(self) -> (result: Uuid)
        ensures
            result == self.id,
    {
        self.id
    }
}

/// Why a delivery operation was refused.
#[derive(Debug, Eq, PartialEq)]
pub enum DeliveryError {
    Catalog(CatalogError),
    InvalidSubscription(String),
    UnknownSubscription,
    InvalidLeaseDuration,
    StaleLease,
    Corrupt(String),
}

/// A `DeliveryError` with its texts as character sequences.
pub enum DeliveryErrorView {
    Catalog(CatalogErrorView),
    InvalidSubscription(Seq<char>),
    UnknownSubscription,
    InvalidLeaseDuration,
    StaleLease,
    Corrupt(Seq<char>),
}

impl View for DeliveryError {
    type V = DeliveryErrorView;

    open spec fn view(&self) -> DeliveryErrorView {
        match *self {
            DeliveryError::Catalog(error) => DeliveryErrorView::Catalog(error@),
            DeliveryError::InvalidSubscription(m) => DeliveryErrorView::InvalidSubscription(m@),
            DeliveryError::UnknownSubscription => DeliveryErrorView::UnknownSubscription,
            DeliveryError::InvalidLeaseDuration => DeliveryErrorView::InvalidLeaseDuration,
            DeliveryError::StaleLease => DeliveryErrorView::StaleLease,
            DeliveryError::Corrupt(m) => DeliveryErrorView::Corrupt(m@),
        }
    }
}

/// The message of a delivery error.
pub open spec fn delivery_message(error: DeliveryErrorView) -> Seq<char> {
    match error {
        DeliveryErrorView::Catalog(inner) => crate::catalog::catalog_message(inner),
        DeliveryErrorView::InvalidSubscription(m) => "invalid subscription: "@ + m,
        DeliveryErrorView::UnknownSubscription => "unknown subscription"@,
        DeliveryErrorView::InvalidLeaseDuration => {
            "lease duration must fit in a positive i64 millisecond timestamp"@
        },
        DeliveryErrorView::StaleLease => "lease is stale, expired, or already settled"@,
        DeliveryErrorView::Corrupt(m) => "delivery state is corrupt: "@ + m,
    }
}

impl DeliveryError {
    /// The message for an operator.
    pub fn message(&self) -> (result: String)
        ensures
            result@ == delivery_message(self@),
    {
        match self {
            DeliveryError::Catalog(inner) => inner.message(),
            DeliveryError::InvalidSubscription(m) => concat2("invalid subscription: ", m.as_str()),
            DeliveryError::UnknownSubscription => "unknown subscription".to_owned(),
            DeliveryError::InvalidLeaseDuration => {
                "lease duration must fit in a positive i64 millisecond timestamp".to_owned()
            },
            DeliveryError::StaleLease => "lease is stale, expired, or already settled".to_owned(),
            DeliveryError::Corrupt(m) => concat2("delivery state is corrupt: ", m.as_str()),
        }
    }
}

/// What a new subscription starts from.
#[derive(Clone, Copy, Debug, Eq, PartialEq, Structural)]
pub enum SubscriptionMode {
    ReplayEvents,
    RebuildCurrent,
}

/// The stored name of a subscription mode.
pub open spec fn mode_name(mode: SubscriptionMode) -> Seq<char> {
    match mode {
        SubscriptionMode::ReplayEvents => "replay_events"@,
        SubscriptionMode::RebuildCurrent => "rebuild_current"@,
    }
}

impl SubscriptionMode {
    pub fn as_db(self) -> (result: &'static str)
        ensures
            result@ == mode_name(self),
    {
        match self {
            SubscriptionMode::ReplayEvents => "replay_events",
            SubscriptionMode::RebuildCurrent => "rebuild_current",
        }
    }

    pub fn from_db(value: &str) -> (result: Result<SubscriptionMode, DeliveryError>)
        ensures
            match result {
                Ok(mode) => value@ == mode_name(mode),
                Err(error) => {
                    &&& forall|mode: SubscriptionMode| value@ != #[trigger] mode_name(mode)
                    &&& error@ == DeliveryErrorView::Corrupt(
                        "unknown subscription mode "@ + text::debug_form(value@),
                    )
                },
            },
    {
        if same_text(value, "replay_events") {
            Ok(SubscriptionMode::ReplayEvents)
        } else if same_text(value, "rebuild_current") {
            Ok(SubscriptionMode::RebuildCurrent)
        } else {
            Err(
                DeliveryError::Corrupt(
                    concat2("unknown subscription mode ", debug_text(value).as_str()),
                ),
            )
        }
    }
}

/// Distinct subscription modes have distinct stored names.
pub proof fn law_mode_name_injective(a: SubscriptionMode, b: SubscriptionMode)
    requires
        mode_name(a) == mode_name(b),
    ensures
        a == b,
{
    reveal_strlit("replay_events");
    reveal_strlit("rebuild_current");
    assert("replay_events"@.len() == 13 && "rebuild_current"@.len() == 15);
}

/// How often a delivery is tried and how long a retry waits.
#[derive(Clone, Copy, Debug, Eq, PartialEq, Structural)]
pub struct RetryPolicy {
    pub max_attempts: u32,
    pub initial_backoff_ms: u64,
    pub max_backoff_ms: u64,
}

impl RetryPolicy {
    pub open spec fn valid(self) -> bool {
        self.max_attempts != 0 && self.max_backoff_ms >= self.initial_backoff_ms
    }

    pub fn new(max_attempts: u32, initial_backoff_ms: u64, max_backoff_ms: u64) -> (result: Result<
        RetryPolicy,
        DeliveryError,
    >)
        ensures
            ({
                let policy = RetryPolicy { max_attempts, initial_backoff_ms, max_backoff_ms };
                match result {
                    Ok(made) => policy.valid() && made == policy,
                    Err(error) => !policy.valid() && error@
                        == DeliveryErrorView::InvalidSubscription(
                        "retry policy requires positive attempts and max_backoff_ms >= initial_backoff_ms"@,
                    ),
                }
            }),
    {
        if max_attempts == 0 || max_backoff_ms < initial_backoff_ms {
            return Err(
                DeliveryError::InvalidSubscription(
                    "retry policy requires positive attempts and max_backoff_ms >= initial_backoff_ms".to_owned(),
                ),
            );
        }
        Ok(RetryPolicy { max_attempts, initial_backoff_ms, max_backoff_ms })
    }

    pub fn max_attempts(self) -> (result: u32)
        ensures
            result == self.max_attempts,
    {
        self.max_attempts
    }

    pub fn initial_backoff_ms(self) -> (result: u64)
        ensures
            result == self.initial_backoff_ms,
    {
        self.initial_backoff_ms
    }

    pub fn max_backoff_ms(self) -> (result: u64)
        ensures
            result == self.max_backoff_ms,
    {
        self.max_backoff_ms
    }
}

impl Default for RetryPolicy {
    fn default() -> (result: RetryPolicy)
        ensures
            result == (RetryPolicy {
                max_attempts: 8,
                initial_backoff_ms: 1_000,
                max_backoff_ms: 60_000,
            }),
    {
        RetryPolicy { max_attempts: 8, initial_backoff_ms: 1_000, max_backoff_ms: 60_000 }
    }
}

/// How often the initial backoff is doubled before attempt `attempt + 1`.
pub open spec fn doublings(attempt: u32) -> nat {
    if attempt == 0 {
        0
    } else if attempt > 64 {
        63
    } else {
        (attempt - 1) as nat
    }
}

/// The wait behind attempt `attempt`: the initial backoff doubled per attempt, up to the maximum.
pub open spec fn backoff_ms(policy: RetryPolicy, attempt: u32) -> nat {
    let grown = policy.initial_backoff_ms as nat * pow2(doublings(attempt));
    if grown < policy.max_backoff_ms {
        grown
    } else {
        policy.max_backoff_ms as nat
    }
}

/// The time before which a delivery may not be tried again, where it can be written.
pub open spec fn not_before(policy: RetryPolicy, attempt: u32, now_ms: i64) -> Option<i64> {
    let delay = backoff_ms(policy, attempt);
    if delay <= i64::MAX && now_ms + delay <= i64::MAX {
        Some((now_ms + delay) as i64)
    } else {
        None
    }
}

/// The earliest time of the next attempt behind attempt `attempt`.
pub fn retry_not_before_ms(policy: &RetryPolicy, attempt: u32, now_ms: i64) -> (result: Result<
    i64,
    DeliveryError,
>)
    ensures
        match result {
            Ok(time) => not_before(*policy, attempt, now_ms) == Some(time),
            Err(error) => not_before(*policy, attempt, now_ms) is None && error@
                == DeliveryErrorView::InvalidLeaseDuration,
        },
{
    let shift: u32 = if attempt == 0 {
        0
    } else if attempt > 64 {
        63
    } else {
        attempt - 1
    };
    let multiplier: u64 = power_of_two(shift);
    assert(policy.initial_backoff_ms * multiplier <= u64::MAX * u64::MAX) by (nonlinear_arith)
        requires
            policy.initial_backoff_ms <= u64::MAX,
            multiplier <= u64::MAX,
    ;
    let grown: u128 = policy.initial_backoff_ms as u128 * multiplier as u128;
    let delay: u64 = if grown < policy.max_backoff_ms as u128 {
        grown as u64
    } else {
        policy.max_backoff_ms
    };
    if delay > 0x7fff_ffff_ffff_ffff {
        return Err(DeliveryError::InvalidLeaseDuration);
    }
    match now_ms.checked_add(delay as i64) {
        Some(time) => Ok(time),
        None => Err(DeliveryError::InvalidLeaseDuration),
    }
}

/// Two to the power `shift`.
fn power_of_two(shift: u32) -> (result: u64)
    requires
        shift < 64,
    ensures
        result as nat == pow2(shift as nat),
{
    let mut value: u64 = 1;
    let mut i: u32 = 0;
    proof {
        lemma2_to64();
    }
    while i < shift
        invariant
            i <= shift < 64,
            value as nat == pow2(i as nat),
        decreases shift - i,
    {
        proof {
            lemma2_to64();
            lemma2_to64_rest();
            lemma_pow2_unfold((i + 1) as nat);
            if i < 62 {
                lemma_pow2_strictly_increases((i + 1) as nat, 63);
            }
        }
        value = value * 2;
        i += 1;
    }
    value
}

/// A wait never exceeds the policy's maximum.
pub proof fn law_backoff_bounded(policy: RetryPolicy, attempt: u32)
    ensures
        backoff_ms(policy, attempt) <= policy.max_backoff_ms,
{
}

/// A later attempt never waits less.
pub proof fn law_backoff_monotone(policy: RetryPolicy, earlier: u32, later: u32)
    requires
        earlier <= later,
    ensures
        backoff_ms(policy, earlier) <= backoff_ms(policy, later),
{
    let a = doublings(earlier);
    let b = doublings(later);
    if a < b {
        lemma_pow2_strictly_increases(a, b);
    }
    assert(policy.initial_backoff_ms as nat * pow2(a) <= policy.initial_backoff_ms as nat * pow2(b))
        by (nonlinear_arith)
        requires
            pow2(a) <= pow2(b),
    ;
}

/// The waits of a policy: the first is the initial backoff, every further one is twice the one before,
/// none exceeds the maximum, and from the sixty-fourth on they are all alike.
pub proof fn law_backoff_doubles(policy: RetryPolicy, attempt: u32)
    ensures
        attempt <= 1 ==> backoff_ms(policy, attempt) == (if policy.initial_backoff_ms
            < policy.max_backoff_ms {
            policy.initial_backoff_ms as nat
        } else {
            policy.max_backoff_ms as nat
        }),
        1 <= attempt < 64 ==> backoff_ms(policy, (attempt + 1) as u32) == (if 2 * backoff_ms(
            policy,
            attempt,
        ) < policy.max_backoff_ms {
            2 * backoff_ms(policy, attempt)
        } else {
            policy.max_backoff_ms as nat
        }),
        attempt >= 64 ==> backoff_ms(policy, attempt) == backoff_ms(policy, 64),
{
    lemma2_to64();
    let initial = policy.initial_backoff_ms as nat;
    assert(initial * pow2(0) == initial) by (nonlinear_arith)
        requires
            pow2(0) == 1,
    ;
    if 1 <= attempt < 64 {
        let n = (attempt - 1) as nat;
        lemma_pow2_unfold(n + 1);
        assert(initial * pow2(n + 1) == 2 * (initial * pow2(n))) by (nonlinear_arith)
            requires
                pow2(n + 1) == 2 * pow2(n),
        ;
    }
}

/// The next attempt comes exactly one wait after a failure, whenever that is, and is refused only
/// where its time cannot be written.
pub proof fn law_next_attempt_waits_the_backoff(policy: RetryPolicy, attempt: u32, now_ms: i64)
    ensures
        not_before(policy, attempt, now_ms) matches Some(time) ==> time - now_ms == backoff_ms(
            policy,
            attempt,
        ),
        not_before(policy, attempt, now_ms) is None ==> backoff_ms(policy, attempt) > i64::MAX
            || now_ms + backoff_ms(policy, attempt) > i64::MAX,
{
}

/// What a consumer asks of a new subscription.
#[derive(Debug, Eq, PartialEq)]
pub struct SubscriptionConfig {
    consumer_id: String,
    max_active_leases: u32,
    accepts_moves: bool,
    accepts_tombstones: bool,
    replay_after_sequence: u64,
    retry_policy: RetryPolicy,
}

/// The parts of a subscription configuration.
#[verifier::ext_equal]
pub struct ConfigView {
    pub consumer_id: Seq<char>,
    pub max_active_leases: u32,
    pub accepts_moves: bool,
    pub accepts_tombstones: bool,
    pub replay_after_sequence: u64,
    pub retry_policy: RetryPolicy,
}

impl View for SubscriptionConfig {
    type V = ConfigView;

    closed spec fn view(&self) -> ConfigView {
        ConfigView {
            consumer_id: self.consumer_id@,
            max_active_leases: self.max_active_leases,
            accepts_moves: self.accepts_moves,
            accepts_tombstones: self.accepts_tombstones,
            replay_after_sequence: self.replay_after_sequence,
            retry_policy: self.retry_policy,
        }
    }
}

impl ConfigView {
    pub open spec fn valid(self) -> bool {
        text::is_label(self.consumer_id) && self.max_active_leases != 0 && self.retry_policy.valid()
    }
}

impl SubscriptionConfig {
    /// A constructed configuration names its consumer and allows a lease.
    #[verifier::type_invariant]
    pub open spec fn inv(self) -> bool {
        self@.valid()
    }

    pub fn new(
        consumer_id: &str,
        max_active_leases: u32,
        accepts_moves: bool,
        accepts_tombstones: bool,
    ) -> (result: Result<SubscriptionConfig, DeliveryError>)
        ensures
            match result {
                Ok(config) => {
                    &&& text::is_label(consumer_id@)
                    &&& max_active_leases != 0
                    &&& config@ == (ConfigView {
                        consumer_id: consumer_id@,
                        max_active_leases,
                        accepts_moves,
                        accepts_tombstones,
                        replay_after_sequence: 0,
                        retry_policy: RetryPolicy {
                            max_attempts: 8,
                            initial_backoff_ms: 1_000,
                            max_backoff_ms: 60_000,
                        },
                    })
                },
                Err(error) => {
                    &&& !(text::is_label(consumer_id@) && max_active_leases != 0)
                    &&& error@ == DeliveryErrorView::InvalidSubscription(
                        if !text::is_label(consumer_id@) {
                            "consumer_id must be non-empty, trimmed, and free of NUL bytes"@
                        } else {
                            "max_active_leases must be at least one"@
                        },
                    )
                },
            },
    {
        if !label_ok(consumer_id) {
            return Err(
                DeliveryError::InvalidSubscription(
                    "consumer_id must be non-empty, trimmed, and free of NUL bytes".to_owned(),
                ),
            );
        }
        if max_active_leases == 0 {
            return Err(
                DeliveryError::InvalidSubscription(
                    "max_active_leases must be at least one".to_owned(),
                ),
            );
        }
        Ok(
            SubscriptionConfig {
                consumer_id: consumer_id.to_owned(),
                max_active_leases,
                accepts_moves,
                accepts_tombstones,
                replay_after_sequence: 0,
                retry_policy: RetryPolicy::default(),
            },
        )
    }

    /// Limits an initial `replay_events` epoch to events strictly after this durable archive
    /// sequence. Live events are still appended normally.
    pub fn with_replay_after_sequence(self, sequence: u64) -> (result: SubscriptionConfig)
        ensures
            result@ == (ConfigView { replay_after_sequence: sequence, ..self@ }),
    {
        proof {
            use_type_invariant(&self);
        }
        SubscriptionConfig {
            consumer_id: self.consumer_id,
            max_active_leases: self.max_active_leases,
            accepts_moves: self.accepts_moves,
            accepts_tombstones: self.accepts_tombstones,
            replay_after_sequence: sequence,
            retry_policy: self.retry_policy,
        }
    }

    pub fn with_retry_policy(self, retry_policy: RetryPolicy) -> (result: SubscriptionConfig)
        requires
            retry_policy.valid(),
        ensures
            result@ == (ConfigView { retry_policy, ..self@ }),
    {
        proof {
            use_type_invariant(&self);
        }
        SubscriptionConfig {
            consumer_id: self.consumer_id,
            max_active_leases: self.max_active_leases,
            accepts_moves: self.accepts_moves,
            accepts_tombstones: self.accepts_tombstones,
            replay_after_sequence: self.replay_after_sequence,
            retry_policy,
        }
    }

    pub fn consumer_id(&self) -> (result: &str)
        ensures
            result@ == self@.consumer_id,
    {
        self.consumer_id.as_str()
    }

    pub fn max_active_leases(&self) -> (result: u32)
        ensures
            result == self@.max_active_leases,
    {
        self.max_active_leases
    }

    pub fn accepts_moves(&self) -> (result: bool)
        ensures
            result == self@.accepts_moves,
    {
        self.accepts_moves
    }

    pub fn accepts_tombstones(&self) -> (result: bool)
        ensures
            result == self@.accepts_tombstones,
    {
        self.accepts_tombstones
    }

    pub fn replay_after_sequence(&self) -> (result: u64)
        ensures
            result == self@.replay_after_sequence,
    {
        self.replay_after_sequence
    }

    pub fn retry_policy(&self) -> (result: RetryPolicy)
        ensures
            result == self@.retry_policy,
    {
        self.retry_policy
    }
}

/// A subscription as its creator learns of it.
#[derive(Debug, Eq, PartialEq)]
pub struct Subscription {
    pub id: SubscriptionId,
    pub consumer_id: String,
    pub mode: SubscriptionMode,
    pub replay_after_sequence: u64,
    pub enabled: bool,
}

/// Where a delivery stands.
#[derive(Clone, Copy, Debug, Eq, PartialEq, Structural)]
pub enum DeliveryState {
    Queued,
    Leased,
    Blocked,
    Acknowledged,
    Superseded,
    IgnoredByPolicy,
    DeadLettered,
}

/// The stored name of a delivery state.
pub open spec fn delivery_state_name(state: DeliveryState) -> Seq<char> {
    match state {
        DeliveryState::Queued => "queued"@,
        DeliveryState::Leased => "leased"@,
        DeliveryState::Blocked => "blocked"@,
        DeliveryState::Acknowledged => "acknowledged"@,
        DeliveryState::Superseded => "superseded"@,
        DeliveryState::IgnoredByPolicy => "ignored_by_policy"@,
        DeliveryState::DeadLettered => "dead_lettered"@,
    }
}

/// Whether later versions of the record may follow a delivery in this state.
pub open spec fn state_advances(state: DeliveryState) -> bool {
    ||| state == DeliveryState::Acknowledged
    ||| state == DeliveryState::Superseded
    ||| state == DeliveryState::IgnoredByPolicy
}

impl DeliveryState {
    pub fn as_db(self) -> (result: &'static str)
        ensures
            result@ == delivery_state_name(self),
    {
        match self {
            DeliveryState::Queued => "queued",
            DeliveryState::Leased => "leased",
            DeliveryState::Blocked => "blocked",
            DeliveryState::Acknowledged => "acknowledged",
            DeliveryState::Superseded => "superseded",
            DeliveryState::IgnoredByPolicy => "ignored_by_policy",
            DeliveryState::DeadLettered => "dead_lettered",
        }
    }

    pub fn from_db(value: &str) -> (result: Result<DeliveryState, DeliveryError>)
        ensures
            match result {
                Ok(state) => value@ == delivery_state_name(state),
                Err(error) => {
                    &&& forall|state: DeliveryState| value@ != #[trigger] delivery_state_name(state)
                    &&& error@ == DeliveryErrorView::Corrupt(
                        "unknown delivery state "@ + text::debug_form(value@),
                    )
                },
            },
    {
        if same_text(value, "queued") {
            Ok(DeliveryState::Queued)
        } else if same_text(value, "leased") {
            Ok(DeliveryState::Leased)
        } else if same_text(value, "blocked") {
            Ok(DeliveryState::Blocked)
        } else if same_text(value, "acknowledged") {
            Ok(DeliveryState::Acknowledged)
        } else if same_text(value, "superseded") {
            Ok(DeliveryState::Superseded)
        } else if same_text(value, "ignored_by_policy") {
            Ok(DeliveryState::IgnoredByPolicy)
        } else if same_text(value, "dead_lettered") {
            Ok(DeliveryState::DeadLettered)
        } else {
            Err(
                DeliveryError::Corrupt(
                    concat2("unknown delivery state ", debug_text(value).as_str()),
                ),
            )
        }
    }

    /// Whether later versions of the record may follow.
    pub fn advances(self) -> (result: bool)
        ensures
            result == state_advances(self),
    {
        self == DeliveryState::Acknowledged || self == DeliveryState::Superseded || self
            == DeliveryState::IgnoredByPolicy
    }
}

/// Distinct delivery states have distinct stored names.
pub proof fn law_delivery_state_name_injective(a: DeliveryState, b: DeliveryState)
    requires
        delivery_state_name(a) == delivery_state_name(b),
    ensures
        a == b,
{
    reveal_strlit("queued");
    reveal_strlit("leased");
    reveal_strlit("blocked");
    reveal_strlit("acknowledged");
    reveal_strlit("superseded");
    reveal_strlit("ignored_by_policy");
    reveal_strlit("dead_lettered");
    assert("queued"@[0] == 'q' && "leased"@[0] == 'l' && "blocked"@[0] == 'b');
    assert("acknowledged"@[0] == 'a' && "superseded"@[0] == 's' && "ignored_by_policy"@[0] == 'i');
    assert("dead_lettered"@[0] == 'd');
}

/// The state in which a delivery that was settled with this outcome stands.
pub open spec fn state_of_outcome(outcome: DeliveryOutcome) -> DeliveryState {
    match outcome {
        DeliveryOutcome::Acknowledged => DeliveryState::Acknowledged,
        DeliveryOutcome::Superseded => DeliveryState::Superseded,
        DeliveryOutcome::IgnoredByPolicy => DeliveryState::IgnoredByPolicy,
        DeliveryOutcome::DeadLettered => DeliveryState::DeadLettered,
    }
}

pub fn outcome_state(outcome: DeliveryOutcome) -> (result: DeliveryState)
    ensures
        result == state_of_outcome(outcome),
{
    match outcome {
        DeliveryOutcome::Acknowledged => DeliveryState::Acknowledged,
        DeliveryOutcome::Superseded => DeliveryState::Superseded,
        DeliveryOutcome::IgnoredByPolicy => DeliveryState::IgnoredByPolicy,
        DeliveryOutcome::DeadLettered => DeliveryState::DeadLettered,
    }
}

/// An outcome releases later versions exactly where the state it settles in does.
pub proof fn law_outcome_and_state_agree(outcome: DeliveryOutcome)
    ensures
        crate::domain::outcome_advances(outcome) == state_advances(state_of_outcome(outcome)),
{
}

/// The state in which an event of this kind enters the queue of a subscription: blocked where the
/// consumer does not accept it.
pub open spec fn initial_state(
    accepts_moves: bool,
    accepts_tombstones: bool,
    kind: EventKind,
) -> DeliveryState {
    if kind == EventKind::LocationChanged && !accepts_moves {
        DeliveryState::Blocked
    } else if kind == EventKind::RecordTombstoned && !accepts_tombstones {
        DeliveryState::Blocked
    } else {
        DeliveryState::Queued
    }
}

pub fn initial_delivery_state(
    accepts_moves: bool,
    accepts_tombstones: bool,
    kind: EventKind,
) -> (result: DeliveryState)
    ensures
        result == initial_state(accepts_moves, accepts_tombstones, kind),
{
    match kind {
        EventKind::LocationChanged => if accepts_moves {
            DeliveryState::Queued
        } else {
            DeliveryState::Blocked
        },
        EventKind::RecordTombstoned => if accepts_tombstones {
            DeliveryState::Queued
        } else {
            DeliveryState::Blocked
        },
        _ => DeliveryState::Queued,
    }
}

/// One delivery, held by one consumer until it expires.
#[derive(Debug, Eq, PartialEq)]
pub struct DeliveryLease {
    pub delivery_id: u64,
    pub subscription_id: SubscriptionId,
    pub event_id: EventId,
    pub event_sequence: Option<u64>,
    pub record_id: RecordId,
    pub record_version: u64,
    pub kind: EventKind,
    pub revision_id: Option<RevisionId>,
    pub revision: Option<CanonicalRevision>,
    pub location: Option<LogicalLocation>,
    pub is_snapshot: bool,
    pub attempt: u32,
    pub token: LeaseToken,
    pub expires_at_ms: i64,
}

/// A lease with its revision and location as plain values.
#[verifier::ext_equal]
pub struct LeaseView {
    pub delivery_id: u64,
    pub subscription_id: SubscriptionId,
    pub event_id: EventId,
    pub event_sequence: Option<u64>,
    pub record_id: RecordId,
    pub record_version: u64,
    pub kind: EventKind,
    pub revision_id: Option<RevisionId>,
    pub revision: Option<RevisionView>,
    pub location: Option<LocationView>,
    pub is_snapshot: bool,
    pub attempt: u32,
    pub token: LeaseToken,
    pub expires_at_ms: i64,
}

impl View for DeliveryLease {
    type V = LeaseView;

    open spec fn view(&self) -> LeaseView {
        LeaseView {
            delivery_id: self.delivery_id,
            subscription_id: self.subscription_id,
            event_id: self.event_id,
            event_sequence: self.event_sequence,
            record_id: self.record_id,
            record_version: self.record_version,
            kind: self.kind,
            revision_id: self.revision_id,
            revision: text::view_option(self.revision),
            location: text::view_option(self.location),
            is_snapshot: self.is_snapshot,
            attempt: self.attempt,
            token: self.token,
            expires_at_ms: self.expires_at_ms,
        }
    }
}

/// How many deliveries of a subscription stand in each state.
#[derive(Clone, Copy, Debug, Eq, PartialEq, Structural)]
pub struct DeliveryCounts {
    pub queued: u64,
    pub leased: u64,
    pub blocked: u64,
    pub acknowledged: u64,
    pub superseded: u64,
    pub ignored_by_policy: u64,
    pub dead_lettered: u64,
}

} // verus!
