//! What is taken, what is refused, and where things stand.
use crate::catalog::RegistrationView;
use crate::delivery;
use crate::delivery::{ConfigView, DeliveryState, LeaseView, RetryPolicy};
use crate::domain;
use crate::domain::{EventKind, IdentityView, RevisionView};
use crate::evidence;
use crate::evidence::EvidenceErrorView;
use crate::hindsight;
use crate::hindsight::{ConsumerView, HindsightErrorView};
use crate::ident;
use crate::ident::Uuid;
use crate::mempalace;
use crate::mempalace::MempalaceErrorView;
use crate::naming;
use crate::paths;
use crate::receipts;
use crate::text;
use vstd::prelude::*;

verus! {

/// Identities, registrations, policies and subscriptions are valid exactly where every text in them is a label
/// and every number allows something: a schema has a version, a delivery an attempt, a subscription a lease, and
/// a wait does not shrink.
pub proof fn law_valid_parts_make_a_valid_whole(
    identity: IdentityView,
    registration: RegistrationView,
    policy: RetryPolicy,
    config: ConfigView,
)
    ensures
        identity.valid() <==> text::is_label(identity.agent_namespace) && text::is_label(
            identity.session_id,
        ) && text::is_label(identity.record_kind) && text::is_label(identity.record_key),
        registration.valid() <==> text::is_label(registration.source_id) && text::is_label(
            registration.identity_schema_name,
        ) && registration.identity_schema_version > 0,
        policy.valid() <==> policy.max_attempts > 0 && policy.initial_backoff_ms
            <= policy.max_backoff_ms,
        config.valid() <==> text::is_label(config.consumer_id) && config.max_active_leases > 0
            && config.retry_policy.max_attempts > 0 && config.retry_policy.initial_backoff_ms
            <= config.retry_policy.max_backoff_ms,
{
}

/// A part of an identity that is no label is named as the one at fault, and it is the first of them.
pub proof fn law_fault_names_the_first_bad_part(identity: IdentityView)
    requires
        !identity.valid(),
    ensures
        ({
            let field = identity.first_invalid();
            &&& !text::is_label(identity.agent_namespace) ==> field == "agent_namespace"@
            &&& text::is_label(identity.agent_namespace) && !text::is_label(identity.session_id)
                ==> field == "session_id"@
            &&& text::is_label(identity.agent_namespace) && text::is_label(identity.session_id)
                && !text::is_label(identity.record_kind) ==> field == "record_kind"@
            &&& text::is_label(identity.agent_namespace) && text::is_label(identity.session_id)
                && text::is_label(identity.record_kind) ==> field == "record_key"@
        }),
{
}

/// A delivery waits unless it is of a move or of a deletion that its subscription does not take.
pub proof fn law_entry_waits_unless_it_is_not_taken(
    accepts_moves: bool,
    accepts_tombstones: bool,
    kind: EventKind,
)
    ensures
        ({
            let state = delivery::initial_state(accepts_moves, accepts_tombstones, kind);
            &&& state == DeliveryState::Queued || state == DeliveryState::Blocked
            &&& state == DeliveryState::Blocked <==> (kind == EventKind::LocationChanged
                && !accepts_moves) || (kind == EventKind::RecordTombstoned && !accepts_tombstones)
        }),
{
}

/// A payload that is not the declared one is refused for what is wrong with it, by every consumer alike.
pub proof fn law_consumers_refuse_other_payloads(
    root: Seq<char>,
    lease: LeaseView,
    payload: Option<RevisionView>,
    input_path: Seq<char>,
    existing: Option<Seq<u8>>,
)
    requires
        lease.revision != payload,
    ensures
        evidence::applied(root, lease, payload, existing) == Err::<Option<Seq<u8>>, _>(
            if payload is None {
                EvidenceErrorView::MissingPayload
            } else if lease.revision is None {
                EvidenceErrorView::UnexpectedPayload
            } else {
                EvidenceErrorView::ProvenanceMismatch
            },
        ),
        mempalace::planned(root, lease, payload, input_path, existing) == Err::<
            mempalace::MempalacePlanView,
            _,
        >(
            if payload is None {
                MempalaceErrorView::MissingPayload
            } else if lease.revision is None {
                MempalaceErrorView::UnexpectedPayload
            } else {
                MempalaceErrorView::ProvenanceMismatch
            },
        ),
{
}

/// The consumer of a memory service refuses a payload that is not the declared one for what is wrong with it.
pub proof fn law_memory_consumer_refuses_other_payloads(
    consumer: ConsumerView,
    lease: LeaseView,
    payload: Option<Seq<u8>>,
    existing: Option<Seq<u8>>,
)
    requires
        lease.revision != (match payload {
            Some(bytes) => Some(domain::revision_of(bytes)),
            None => None,
        }),
    ensures
        hindsight::planned(consumer, lease, payload, existing) == Err::<
            hindsight::HindsightPlanView,
            _,
        >(
            if payload is None {
                HindsightErrorView::MissingPayload
            } else if lease.revision is None {
                HindsightErrorView::UnexpectedPayload
            } else {
                HindsightErrorView::ProvenanceMismatch
            },
        ),
{
}

/// A receipt that is not the delivery's own is a conflict, at the place of the delivery's receipt.
pub proof fn law_other_receipt_is_a_conflict(
    root: Seq<char>,
    lease: LeaseView,
    payload: Option<RevisionView>,
    input_path: Seq<char>,
    found: Seq<u8>,
)
    requires
        lease.revision == payload,
    ensures
        found != receipts::json_line(evidence::manifest_json(lease, payload)) ==> evidence::applied(
            root,
            lease,
            payload,
            Some(found),
        ) == Err::<Option<Seq<u8>>, _>(
            EvidenceErrorView::IdempotencyConflict(receipts::receipt_place(root, lease)),
        ),
        found != receipts::json_line(mempalace::receipt_json(lease, payload)) ==> mempalace::planned(
            root,
            lease,
            payload,
            input_path,
            Some(found),
        ) == Err::<mempalace::MempalacePlanView, _>(
            MempalaceErrorView::IdempotencyConflict(receipts::receipt_place(root, lease)),
        ),
{
}

/// The receipt of a delivery stands below the root, in a directory of its subscription and under the name of
/// its event; so no two deliveries of a root share one.
pub proof fn law_receipts_stand_apart(root: Seq<char>, a: LeaseView, b: LeaseView)
    requires
        root.len() > 0,
        root.last() != '/',
    ensures
        receipts::receipt_place(root, a) == root.push('/') + ident::uuid_text(a.subscription_id.id)
            + seq!['/'] + ident::uuid_text(a.event_id.id) + ".json"@,
        receipts::receipt_place(root, a) == receipts::receipt_place(root, b) ==> a.subscription_id
            == b.subscription_id && a.event_id == b.event_id,
{
    lemma_receipt_place(root, a);
    lemma_receipt_place(root, b);
    let x = receipts::receipt_place(root, a);
    let y = receipts::receipt_place(root, b);
    let n = root.len() as int;
    if x == y {
        assert(x.subrange(n + 1, n + 37) == y.subrange(n + 1, n + 37));
        assert(x.subrange(n + 38, n + 74) == y.subrange(n + 38, n + 74));
        ident::law_uuid_text_injective(a.subscription_id.id, b.subscription_id.id);
        ident::law_uuid_text_injective(a.event_id.id, b.event_id.id);
    }
}

proof fn lemma_receipt_place(root: Seq<char>, lease: LeaseView)
    requires
        root.len() > 0,
        root.last() != '/',
    ensures
        ({
            let place = receipts::receipt_place(root, lease);
            let n = root.len() as int;
            &&& place == root.push('/') + ident::uuid_text(lease.subscription_id.id) + seq!['/']
                + ident::uuid_text(lease.event_id.id) + ".json"@
            &&& place.subrange(n + 1, n + 37) == ident::uuid_text(lease.subscription_id.id)
            &&& place.subrange(n + 38, n + 74) == ident::uuid_text(lease.event_id.id)
        }),
{
    let s = ident::uuid_text(lease.subscription_id.id);
    let e = ident::uuid_text(lease.event_id.id);
    reveal_strlit(".json");
    lemma_uuid_starts_plain(lease.subscription_id.id);
    lemma_uuid_starts_plain(lease.event_id.id);
    let directory = paths::joined(root, s);
    assert(directory =~= root.push('/') + s);
    assert(directory.last() == s.last());
    let name = e + ".json"@;
    assert(name[0] == e[0]);
    let place = receipts::receipt_place(root, lease);
    assert(place =~= directory.push('/') + name);
    let n = root.len() as int;
    assert(place =~= root.push('/') + s + seq!['/'] + e + ".json"@);
    assert(place.subrange(n + 1, n + 37) =~= s);
    assert(place.subrange(n + 38, n + 74) =~= e);
}

proof fn lemma_hex_digits_plain(value: nat, count: nat)
    ensures
        ident::hex_digits(value, count).len() == count,
        forall|i: int|
            0 <= i < count ==> '0' <= #[trigger] ident::hex_digits(value, count)[i] <= 'f',
    decreases count,
{
    if count > 0 {
        lemma_hex_digits_plain(value / 16, (count - 1) as nat);
    }
}

proof fn lemma_uuid_starts_plain(id: Uuid)
    ensures
        ident::uuid_text(id).len() == 36,
        ident::uuid_text(id)[0] != '/',
        ident::uuid_text(id)[35] != '/',
{
    lemma_hex_digits_plain(id.value as nat, 32);
    ident::law_uuid_text_reads_back(id);
    let digits = ident::hex_digits(id.value as nat, 32);
    assert(ident::uuid_text(id)[0] == digits[0]);
    assert(ident::uuid_text(id)[35] == digits[31]);
}

/// An identity is written in five groups of hexadecimal digits with hyphens between them.
pub proof fn law_identity_is_written_in_groups(id: Uuid, i: int)
    requires
        0 <= i < 36,
    ensures
        ({
            let c = ident::uuid_text(id)[i];
            &&& i == 8 || i == 13 || i == 18 || i == 23 <==> c == '-'
            &&& c == '-' || ('0' <= c <= '9') || ('a' <= c <= 'f')
        }),
{
    lemma_digits_lower(id.value as nat, 32);
    let digits = ident::hex_digits(id.value as nat, 32);
    let t = ident::uuid_text(id);
    if i < 8 {
        assert(t[i] == digits[i]);
    } else if 8 < i < 13 {
        assert(t[i] == digits[i - 1]);
    } else if 13 < i < 18 {
        assert(t[i] == digits[i - 2]);
    } else if 18 < i < 23 {
        assert(t[i] == digits[i - 3]);
    } else if 23 < i {
        assert(t[i] == digits[i - 4]);
    } else {
        assert(t[i] == '-');
    }
}

proof fn lemma_digits_lower(value: nat, count: nat)
    ensures
        ident::hex_digits(value, count).len() == count,
        forall|i: int|
            0 <= i < count ==> {
                let c = #[trigger] ident::hex_digits(value, count)[i];
                ('0' <= c <= '9') || ('a' <= c <= 'f')
            },
    decreases count,
{
    if count > 0 {
        lemma_digits_lower(value / 16, (count - 1) as nat);
    }
}

/// Consumers are set up exactly where what they are given can be used: an absolute root that is a real
/// directory, a bank whose name is plain, an address of the web with a time to wait, a program with a palace
/// and a wing.
pub proof fn law_consumers_are_refused_for_a_reason(
    root: Seq<char>,
    real_directory: bool,
    bank_id: Seq<char>,
    url: Seq<char>,
    seconds: u64,
    nanoseconds: u32,
    executable: Seq<char>,
    wing: Seq<char>,
)
    ensures
        evidence::root_refusal(root, real_directory) is None <==> root.len() > 0 && root[0] == '/'
            && real_directory,
        mempalace::root_refusal(root, real_directory) is None <==> root.len() > 0 && root[0] == '/'
            && real_directory,
        hindsight::consumer_refusal(root, real_directory, bank_id) is None <==> root.len() > 0
            && root[0] == '/' && real_directory && bank_id.len() > 0 && forall|i: int|
            0 <= i < bank_id.len() ==> {
                let c = #[trigger] bank_id[i];
                ('a' <= c && c <= 'z') || ('A' <= c && c <= 'Z') || ('0' <= c && c <= '9') || c
                    == '-' || c == '_' || c == '.'
            },
        hindsight::http_refusal(url, seconds, nanoseconds) is None <==> text::is_label(url) && (
        (url.len() >= 7 && url.take(7) == "http://"@) || (url.len() >= 8 && url.take(8)
            == "https://"@)) && (seconds > 0 || nanoseconds > 0),
        mempalace::cli_refusal(executable, root, wing) is None <==> executable.len() > 0
            && root.len() > 0 && root[0] == '/' && text::is_label(wing),
{
    reveal_strlit("http://");
    reveal_strlit("https://");
    if url.len() >= 7 {
        assert(url.take(7) =~= url.subrange(0, 7));
    }
    if url.len() >= 8 {
        assert(url.take(8) =~= url.subrange(0, 8));
    }
    if hindsight::is_bank_id(bank_id) {
        assert forall|i: int| 0 <= i < bank_id.len() implies {
            let c = #[trigger] bank_id[i];
            ('a' <= c && c <= 'z') || ('A' <= c && c <= 'Z') || ('0' <= c && c <= '9') || c == '-'
                || c == '_' || c == '.'
        } by {
            assert(hindsight::bank_char(bank_id[i]));
        }
    }
}

/// A retain call goes to the bank of its consumer.
pub proof fn law_call_goes_to_its_bank(base_url: Seq<char>, bank_id: Seq<char>)
    ensures
        ({
            let endpoint = hindsight::endpoint_of(base_url, bank_id);
            let opening = base_url + "/v1/default/banks/"@;
            &&& endpoint.take(opening.len() as int) == opening
            &&& endpoint.subrange(opening.len() as int, (opening.len() + bank_id.len()) as int)
                == bank_id
            &&& endpoint.skip((opening.len() + bank_id.len()) as int) == "/memories"@
        }),
{
    let endpoint = hindsight::endpoint_of(base_url, bank_id);
    let opening = base_url + "/v1/default/banks/"@;
    assert(endpoint.take(opening.len() as int) =~= opening);
    assert(endpoint.subrange(opening.len() as int, (opening.len() + bank_id.len()) as int)
        =~= bank_id);
    assert(endpoint.skip((opening.len() + bank_id.len()) as int) =~= "/memories"@);
}

/// The workspace of a session is told by the last name of its directory.
pub proof fn law_workspace_is_the_last_name(directory: Seq<char>, name: Seq<char>)
    requires
        name.len() > 0,
        name != seq!['.'],
        name != seq!['.', '.'],
        forall|i: int| 0 <= i < name.len() ==> #[trigger] name[i] != '/',
    ensures
        hindsight::workspace_of(Some(directory.push('/') + name)) == hindsight::tag_of(name),
        hindsight::workspace_of(None) == "unknown"@,
{
    naming::law_file_name_is_behind_the_last_slash(directory, name);
}

/// A failed ingestion is told by the status of the program and what it wrote of its fault.
pub proof fn law_failed_program_tells_its_fault(status: Seq<char>, stderr: Seq<char>)
    ensures
        mempalace::command_outcome(false, status, stderr) matches Err(told) && {
            let fault = text::trim(stderr);
            &&& fault.len() > 0 ==> told.skip(told.len() - fault.len()) == fault
            &&& text::occurs(told, status)
        },
{
    let told = mempalace::command_outcome(false, status, stderr)->Err_0;
    let fault = text::trim(stderr);
    if fault.len() > 0 {
        assert(told.skip(told.len() - fault.len()) =~= fault);
    }
    let n = "MemPalace exited with "@.len() as int;
    assert(told.subrange(n, n + status.len()) =~= status);
    assert(text::occurs_at(told, status, n));
}

/// The hidden copies of a file are told apart by their nonces.
pub proof fn law_copies_are_told_apart(filename: Seq<char>, a: Uuid, b: Uuid)
    ensures
        mempalace::alias_name(filename, a) == mempalace::alias_name(filename, b) ==> a == b,
        mempalace::alias_name(filename, a)[0] == '.',
        mempalace::alias_name(filename, a).subrange(1, (1 + filename.len()) as int) == filename,
{
    reveal_strlit(".");
    reveal_strlit(".jsonl");
    ident::law_uuid_text_reads_back(a);
    ident::law_uuid_text_reads_back(b);
    let n = filename.len() as int;
    let x = mempalace::alias_name(filename, a);
    let y = mempalace::alias_name(filename, b);
    assert(x.subrange(1, 1 + n) =~= filename);
    assert(x.subrange(n + 2, n + 38) =~= ident::uuid_text(a));
    assert(y.subrange(n + 2, n + 38) =~= ident::uuid_text(b));
    if x == y {
        ident::law_uuid_text_injective(a, b);
    }
}

} // verus!
